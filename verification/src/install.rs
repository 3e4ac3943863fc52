//! Installation of the binaries from a checkout.

use crate::text::{text_eq, text_pairs};
use vstd::prelude::*;
use vstd::string::*;

verus! {

/// What a call of the installer asks for.
pub enum Command {
    /// Build the binaries and install them.
    Install,
    /// Something else: what is told, line by line.
    Unknown(String, &'static str),
}

/// What the first argument of the installer asks for.
pub fn parse_command(arg: &Option<String>) -> (r: Command)
    ensures
        match (r, *arg) {
            (Command::Install, Some(name)) => name@ == "install"@,
            (Command::Install, None) => false,
            (Command::Unknown(first, second), Some(name)) => name@ != "install"@ && first@
                == "Unknown command: "@ + name@ && second@ == "Available commands: install"@,
            (Command::Unknown(first, second), None) => first@ == "Usage: cargo xtask <command>"@
                && second@ == "Available commands: install"@,
        },
{
    match arg {
        Some(name) => {
            if text_eq(name.as_str(), "install") {
                return Command::Install;
            }
            let mut line = "Unknown command: ".to_owned();
            line.append(name.as_str());
            Command::Unknown(line, "Available commands: install")
        },
        None => Command::Unknown(
            "Usage: cargo xtask <command>".to_owned(),
            "Available commands: install",
        ),
    }
}

/// The copies that install the binaries: from where and to where, under a home directory.
pub open spec fn copies(home: Seq<char>) -> Seq<(Seq<char>, Seq<char>)> {
    seq![
        ("target/release/capn"@, home + "/.cargo/bin/capn"@),
        ("target/release/captain"@, home + "/.cargo/bin/captain"@),
    ]
}

/// The copies that install the binaries.
pub fn install(home: &str) -> (r: Vec<(String, String)>)
    ensures
        text_pairs(r@) == copies(home@),
{
    let mut capn = home.to_owned();
    capn.append("/.cargo/bin/capn");
    let mut captain = home.to_owned();
    captain.append("/.cargo/bin/captain");
    let mut list: Vec<(String, String)> = Vec::new();
    list.push(("target/release/capn".to_owned(), capn));
    list.push(("target/release/captain".to_owned(), captain));
    proof {
        assert(text_pairs(list@) =~= copies(home@));
    }
    list
}

/// Each binary is copied from where cargo builds it to where cargo installs it, under its own
/// name.
pub proof fn lemma_copies(home: Seq<char>, name: Seq<char>)
    ensures
        copies(home).contains(("target/release/"@ + name, home + "/.cargo/bin/"@ + name)) <==> name
            == "capn"@ || name == "captain"@,
{
    reveal_strlit("target/release/");
    reveal_strlit("target/release/capn");
    reveal_strlit("target/release/captain");
    reveal_strlit("/.cargo/bin/");
    reveal_strlit("/.cargo/bin/capn");
    reveal_strlit("/.cargo/bin/captain");
    reveal_strlit("capn");
    reveal_strlit("captain");
    let source = "target/release/"@ + name;
    let copy = (source, home + "/.cargo/bin/"@ + name);
    assert("target/release/capn"@ =~= "target/release/"@ + "capn"@);
    assert("target/release/captain"@ =~= "target/release/"@ + "captain"@);
    assert(home + "/.cargo/bin/capn"@ =~= home + "/.cargo/bin/"@ + "capn"@);
    assert(home + "/.cargo/bin/captain"@ =~= home + "/.cargo/bin/"@ + "captain"@);
    assert(source.skip(15) =~= name);
    assert(("target/release/"@ + "capn"@).skip(15) =~= "capn"@);
    assert(("target/release/"@ + "captain"@).skip(15) =~= "captain"@);
    if name == "capn"@ {
        assert(copies(home)[0] == copy);
    }
    if name == "captain"@ {
        assert(copies(home)[1] == copy);
    }
}

} // verus!
