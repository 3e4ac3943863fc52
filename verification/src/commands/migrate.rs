//! Config migration command from legacy captain paths to capn paths.

use crate::path::{
    are_plain_names, is_plain_name, join_path, joined_path, lemma_rooted_push, rooted,
};
use crate::text::{
    decimal, digits_value, is_digit, lemma_decimal_value, list_has, number, texts,
};
use vstd::prelude::*;
use vstd::string::*;

verus! {

/// What is done with the legacy configuration.
pub enum Migration {
    /// There is none.
    Nothing,
    /// It becomes the configuration: the first path is renamed to the second.
    Move(String, String),
    /// There is a new configuration already, which takes precedence: the legacy one is put
    /// aside by renaming the first path to the second.
    Archive(String, String),
}

/// The directory of the legacy configuration.
pub open spec fn legacy_dir(config_root: Seq<char>) -> Seq<char> {
    joined_path(config_root, "captain"@)
}

/// The directory of the configuration.
pub open spec fn current_dir(config_root: Seq<char>) -> Seq<char> {
    joined_path(config_root, "capn"@)
}

/// The name under which a legacy configuration is put aside, the `n`-th that is tried.
pub open spec fn archive_name(n: nat) -> Seq<char> {
    if n == 0 {
        "captain.migrated"@
    } else {
        "captain.migrated."@ + decimal(n)
    }
}

/// The `n`-th archive name is the first that is not taken.
pub open spec fn is_first_free(names: Seq<Seq<char>>, n: nat) -> bool {
    &&& !names.contains(archive_name(n))
    &&& forall|k: nat| k < n ==> #[trigger] names.contains(archive_name(k))
}

fn write_archive_name(n: u64) -> (r: String)
    ensures
        r@ == archive_name(n as nat),
{
    if n == 0 {
        "captain.migrated".to_owned()
    } else {
        let mut name = "captain.migrated.".to_owned();
        name.append(number(n).as_str());
        name
    }
}

/// The archive names are all different.
pub proof fn lemma_archive_names_differ(a: nat, b: nat)
    requires
        a != b,
    ensures
        archive_name(a) != archive_name(b),
{
    reveal_strlit("captain.migrated");
    reveal_strlit("captain.migrated.");
    let prefix = "captain.migrated."@;
    if a > 0 && b > 0 {
        lemma_decimal_value(a);
        lemma_decimal_value(b);
        if archive_name(a) == archive_name(b) {
            assert(archive_name(a).skip(prefix.len() as int) =~= decimal(a));
            assert(archive_name(b).skip(prefix.len() as int) =~= decimal(b));
            assert(digits_value(decimal(a)) == digits_value(decimal(b)));
        }
    } else {
        lemma_decimal_value(a);
        lemma_decimal_value(b);
        assert(archive_name(a).len() != archive_name(b).len());
    }
}

/// Only as many archive names are taken as there are names.
proof fn lemma_some_name_is_free(names: Seq<Seq<char>>, n: nat)
    requires
        forall|k: nat| k < n ==> #[trigger] names.contains(archive_name(k)),
    ensures
        n <= names.len(),
    decreases n,
{
    if n > 0 {
        let last = (n - 1) as nat;
        assert(names.contains(archive_name(last)));
        let at = names.index_of(archive_name(last));
        let rest = names.remove(at);
        assert forall|k: nat| k < last implies #[trigger] rest.contains(archive_name(k)) by {
            assert(names.contains(archive_name(k)));
            let i = names.index_of(archive_name(k));
            lemma_archive_names_differ(k, last);
            assert(i != at);
            if i < at {
                assert(rest[i] == archive_name(k));
            } else {
                assert(rest[i - 1] == archive_name(k));
            }
        }
        lemma_some_name_is_free(rest, last);
    }
}

/// There is one first free archive name.
pub proof fn lemma_first_free_is_unique(names: Seq<Seq<char>>, a: nat, b: nat)
    requires
        is_first_free(names, a),
        is_first_free(names, b),
    ensures
        a == b,
{
    if a < b {
        assert(names.contains(archive_name(a)));
    } else if b < a {
        assert(names.contains(archive_name(b)));
    }
}

/// The path under which a legacy configuration is put aside: `captain.migrated`, or that with
/// the first number behind it that is not taken. `names` are the names that are taken.
pub fn next_archive_path(config_root: &str, names: &Vec<String>) -> (r: String)
    ensures
        exists|n: nat| #[trigger]
            is_first_free(texts(names@), n) && r@ == joined_path(config_root@, archive_name(n)),
{
    let ghost taken = texts(names@);
    let mut n: u64 = 0;
    loop
        invariant
            taken == texts(names@),
            n <= names@.len(),
            forall|k: nat| k < n ==> #[trigger] taken.contains(archive_name(k)),
        decreases names@.len() - n,
    {
        let name = write_archive_name(n);
        if !list_has(names, name.as_str()) {
            assert(is_first_free(taken, n as nat));
            return join_path(config_root, name.as_str());
        }
        proof {
            assert forall|k: nat| k < n + 1 implies #[trigger] taken.contains(
                archive_name(k),
            ) by {}
            lemma_some_name_is_free(taken, (n + 1) as nat);
        }
        let count: usize = names.len();
        assert(n + 1 <= count);
        n = n + 1;
    }
}

/// What is done with the legacy configuration of a workspace, given whether it exists, whether
/// there is a new one, and which names are taken.
pub open spec fn is_migration(
    workspace: Seq<char>,
    old_exists: bool,
    new_exists: bool,
    names: Seq<Seq<char>>,
    migration: Migration,
) -> bool {
    let root = joined_path(workspace, ".config"@);
    match migration {
        Migration::Nothing => !old_exists,
        Migration::Move(from, to) => old_exists && !new_exists && from@ == legacy_dir(root) && to@
            == current_dir(root),
        Migration::Archive(from, to) => old_exists && new_exists && from@ == legacy_dir(root)
            && exists|n: nat| #[trigger]
            is_first_free(names, n) && to@ == joined_path(root, archive_name(n)),
    }
}

/// Migrate `.config/captain` to `.config/capn`: what is done, given whether each of them
/// exists and which names are taken in `.config`.
pub fn run_migrate(
    workspace_dir: &str,
    old_exists: bool,
    new_exists: bool,
    names: &Vec<String>,
) -> (r: Migration)
    ensures
        ({
            let root = joined_path(workspace_dir@, ".config"@);
            match r {
                Migration::Nothing => !old_exists,
                Migration::Move(from, to) => old_exists && !new_exists && from@ == legacy_dir(root)
                    && to@ == current_dir(root),
                Migration::Archive(from, to) => old_exists && new_exists && from@ == legacy_dir(
                    root,
                ) && exists|n: nat| #[trigger]
                    is_first_free(texts(names@), n) && to@ == joined_path(root, archive_name(n)),
            }
        }),
        is_migration(workspace_dir@, old_exists, new_exists, texts(names@), r),
{
    if !old_exists {
        return Migration::Nothing;
    }
    let config_root = join_path(workspace_dir, ".config");
    let old_dir = join_path(config_root.as_str(), "captain");
    if !new_exists {
        return Migration::Move(old_dir, join_path(config_root.as_str(), "capn"));
    }
    Migration::Archive(old_dir, next_archive_path(config_root.as_str(), names))
}

/// The legacy configuration lies in `captain` beside the new one in `capn`, and is put aside
/// there under `captain.migrated`, or that and a number from 1 on.
pub proof fn lemma_migration_paths(config_root: Seq<Seq<char>>, n: nat)
    requires
        are_plain_names(config_root),
    ensures
        legacy_dir(rooted(config_root)) == rooted(config_root.push("captain"@)),
        current_dir(rooted(config_root)) == rooted(config_root.push("capn"@)),
        archive_name(0) == "captain.migrated"@,
        n > 0 ==> archive_name(n) == "captain.migrated."@ + decimal(n),
{
    reveal_strlit("captain");
    reveal_strlit("capn");
    assert("captain"@[0] == 'c' && "capn"@[0] == 'c');
    lemma_rooted_push(config_root, "captain"@);
    lemma_rooted_push(config_root, "capn"@);
}

/// A legacy configuration becomes the new one where there is none; where there is one, it is
/// put aside under a name that is not taken; and nothing is done where there is no legacy one.
pub proof fn lemma_migration(
    workspace: Seq<Seq<char>>,
    old_exists: bool,
    new_exists: bool,
    names: Seq<Seq<char>>,
    migration: Migration,
)
    requires
        are_plain_names(workspace),
        is_migration(rooted(workspace), old_exists, new_exists, names, migration),
    ensures
        migration is Nothing <==> !old_exists,
        migration is Move <==> old_exists && !new_exists,
        migration is Archive <==> old_exists && new_exists,
        migration matches Migration::Move(from, to) ==> from@ == rooted(
            workspace.push(".config"@).push("captain"@),
        ) && to@ == rooted(workspace.push(".config"@).push("capn"@)),
        migration matches Migration::Archive(from, to) ==> {
            &&& from@ == rooted(workspace.push(".config"@).push("captain"@))
            &&& exists|n: nat| #[trigger]
                is_first_free(names, n) && !names.contains(archive_name(n)) && to@ == rooted(
                    workspace.push(".config"@).push(archive_name(n)),
                )
        },
{
    let root = workspace.push(".config"@);
    reveal_strlit(".config");
    assert(".config"@.len() == 7);
    lemma_rooted_push(workspace, ".config"@);
    lemma_migration_paths(root, 0);
    if let Migration::Archive(from, to) = migration {
        let n = choose|n: nat| #[trigger]
            is_first_free(names, n) && to@ == joined_path(rooted(root), archive_name(n));
        lemma_archive_name_is_plain(n);
        lemma_rooted_push(root, archive_name(n));
        assert(is_first_free(names, n));
    }
}

proof fn lemma_archive_name_is_plain(n: nat)
    ensures
        is_plain_name(archive_name(n)),
{
    reveal_strlit("captain.migrated");
    reveal_strlit("captain.migrated.");
    let name = archive_name(n);
    lemma_decimal_value(n);
    assert(name[0] == 'c');
    assert forall|i: int| 0 <= i < name.len() implies name[i] != '/' by {
        if n > 0 && i >= 17 {
            assert(name[i] == decimal(n)[i - 17]);
            assert(is_digit(decimal(n)[i - 17]));
        }
    }
}

} // verus!
