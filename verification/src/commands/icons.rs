//! Icons for files.

use crate::text::text_eq;
use vstd::prelude::*;

verus! {

/// The Nerd Font icon for a file extension.
pub open spec fn icon(ext: Seq<char>) -> Seq<char> {
    if ext == "rs"@ {
        // 
        "\u{e7a8}"@
    } else if ext == "js"@ {
        // 
        "\u{e74e}"@
    } else if ext == "ts"@ {
        // 
        "\u{e628}"@
    } else if ext == "jsx"@ || ext == "tsx"@ {
        // 
        "\u{e7ba}"@
    } else if ext == "py"@ {
        // 
        "\u{e73c}"@
    } else if ext == "rb"@ {
        // 
        "\u{e791}"@
    } else if ext == "go"@ {
        // 
        "\u{e626}"@
    } else if ext == "java"@ {
        // 
        "\u{e738}"@
    } else if ext == "c"@ || ext == "h"@ {
        // 
        "\u{e61e}"@
    } else if ext == "cpp"@ || ext == "cc"@ || ext == "cxx"@ || ext == "hpp"@ {
        // 
        "\u{e61d}"@
    } else if ext == "cs"@ {
        // C#
        "\u{f031b}"@
    } else if ext == "swift"@ {
        // 
        "\u{e755}"@
    } else if ext == "kt"@ || ext == "kts"@ {
        // 
        "\u{e634}"@
    } else if ext == "php"@ {
        // 
        "\u{e73d}"@
    } else if ext == "lua"@ {
        // 
        "\u{e620}"@
    } else if ext == "zig"@ {
        // 
        "\u{e6a9}"@
    } else if ext == "hs"@ {
        // 
        "\u{e777}"@
    } else if ext == "ex"@ || ext == "exs"@ {
        // 
        "\u{e62d}"@
    } else if ext == "erl"@ {
        // 
        "\u{e7b1}"@
    } else if ext == "scala"@ {
        // 
        "\u{e737}"@
    } else if ext == "clj"@ || ext == "cljs"@ {
        // 
        "\u{e768}"@
    } else if ext == "r"@ {
        // R
        "\u{f07d4}"@
    } else if ext == "jl"@ {
        // 
        "\u{e624}"@
    } else if ext == "pl"@ || ext == "pm"@ {
        // 
        "\u{e769}"@
    } else if ext == "sh"@ || ext == "bash"@ || ext == "zsh"@ {
        // 
        "\u{e795}"@
    } else if ext == "fish"@ {
        // 
        "\u{f489}"@
    } else if ext == "ps1"@ {
        // 
        "\u{e70f}"@
    } else if ext == "vim"@ {
        // 
        "\u{e62b}"@
    } else if ext == "el"@ {
        // Lisp
        "\u{e779}"@
    } else if ext == "html"@ || ext == "htm"@ {
        // 
        "\u{e736}"@
    } else if ext == "css"@ {
        // 
        "\u{e749}"@
    } else if ext == "scss"@ || ext == "sass"@ {
        // 
        "\u{e74b}"@
    } else if ext == "less"@ {
        // 
        "\u{e758}"@
    } else if ext == "vue"@ {
        // 
        "\u{e6a0}"@
    } else if ext == "svelte"@ {
        // 
        "\u{e697}"@
    } else if ext == "astro"@ {
        // 
        "\u{e6b3}"@
    } else if ext == "wasm"@ {
        // 
        "\u{e6a1}"@
    } else if ext == "json"@ {
        // 
        "\u{e60b}"@
    } else if ext == "yaml"@ || ext == "yml"@ {
        // 
        "\u{e6a8}"@
    } else if ext == "toml"@ {
        // 
        "\u{e6b2}"@
    } else if ext == "xml"@ {
        // XML
        "\u{f05c0}"@
    } else if ext == "csv"@ {
        // CSV
        "\u{f0219}"@
    } else if ext == "sql"@ {
        // 
        "\u{e706}"@
    } else if ext == "graphql"@ || ext == "gql"@ {
        // 
        "\u{e662}"@
    } else if ext == "proto"@ {
        // 
        "\u{e6a5}"@
    } else if ext == "md"@ || ext == "markdown"@ {
        // 
        "\u{e73e}"@
    } else if ext == "txt"@ {
        // Text
        "\u{f0219}"@
    } else if ext == "pdf"@ {
        // PDF
        "\u{f0226}"@
    } else if ext == "doc"@ || ext == "docx"@ {
        // Word
        "\u{f0219}"@
    } else if ext == "rst"@ {
        // reStructuredText
        "\u{f0219}"@
    } else if ext == "lock"@ {
        // file
        "\u{f023}"@
    } else if ext == "dockerfile"@ {
        // 
        "\u{e7b0}"@
    } else if ext == "nix"@ {
        // 
        "\u{f313}"@
    } else if ext == "cmake"@ {
        // 
        "\u{e615}"@
    } else if ext == "png"@ || ext == "jpg"@ || ext == "jpeg"@ || ext == "gif"@ || ext == "bmp"@ || ext == "ico"@ || ext == "webp"@ {
        // 
        "\u{f03e}"@
    } else if ext == "svg"@ {
        // SVG
        "\u{f0721}"@
    } else if ext == "gitignore"@ || ext == "gitattributes"@ || ext == "gitmodules"@ {
        // 
        "\u{e702}"@
    } else {
        // Generic file
        "\u{f15b}"@
    }
}

/// Returns a Nerd Font icon for the given file extension
pub fn icon_for_extension(ext: &str) -> (r: &'static str)
    ensures
        r@ == icon(ext@),
{
    if text_eq(ext, "rs") {
        "\u{e7a8}"
    } else if text_eq(ext, "js") {
        "\u{e74e}"
    } else if text_eq(ext, "ts") {
        "\u{e628}"
    } else if text_eq(ext, "jsx") || text_eq(ext, "tsx") {
        "\u{e7ba}"
    } else if text_eq(ext, "py") {
        "\u{e73c}"
    } else if text_eq(ext, "rb") {
        "\u{e791}"
    } else if text_eq(ext, "go") {
        "\u{e626}"
    } else if text_eq(ext, "java") {
        "\u{e738}"
    } else if text_eq(ext, "c") || text_eq(ext, "h") {
        "\u{e61e}"
    } else if text_eq(ext, "cpp") || text_eq(ext, "cc") || text_eq(ext, "cxx") || text_eq(ext, "hpp") {
        "\u{e61d}"
    } else if text_eq(ext, "cs") {
        "\u{f031b}"
    } else if text_eq(ext, "swift") {
        "\u{e755}"
    } else if text_eq(ext, "kt") || text_eq(ext, "kts") {
        "\u{e634}"
    } else if text_eq(ext, "php") {
        "\u{e73d}"
    } else if text_eq(ext, "lua") {
        "\u{e620}"
    } else if text_eq(ext, "zig") {
        "\u{e6a9}"
    } else if text_eq(ext, "hs") {
        "\u{e777}"
    } else if text_eq(ext, "ex") || text_eq(ext, "exs") {
        "\u{e62d}"
    } else if text_eq(ext, "erl") {
        "\u{e7b1}"
    } else if text_eq(ext, "scala") {
        "\u{e737}"
    } else if text_eq(ext, "clj") || text_eq(ext, "cljs") {
        "\u{e768}"
    } else if text_eq(ext, "r") {
        "\u{f07d4}"
    } else if text_eq(ext, "jl") {
        "\u{e624}"
    } else if text_eq(ext, "pl") || text_eq(ext, "pm") {
        "\u{e769}"
    } else if text_eq(ext, "sh") || text_eq(ext, "bash") || text_eq(ext, "zsh") {
        "\u{e795}"
    } else if text_eq(ext, "fish") {
        "\u{f489}"
    } else if text_eq(ext, "ps1") {
        "\u{e70f}"
    } else if text_eq(ext, "vim") {
        "\u{e62b}"
    } else if text_eq(ext, "el") {
        "\u{e779}"
    } else if text_eq(ext, "html") || text_eq(ext, "htm") {
        "\u{e736}"
    } else if text_eq(ext, "css") {
        "\u{e749}"
    } else if text_eq(ext, "scss") || text_eq(ext, "sass") {
        "\u{e74b}"
    } else if text_eq(ext, "less") {
        "\u{e758}"
    } else if text_eq(ext, "vue") {
        "\u{e6a0}"
    } else if text_eq(ext, "svelte") {
        "\u{e697}"
    } else if text_eq(ext, "astro") {
        "\u{e6b3}"
    } else if text_eq(ext, "wasm") {
        "\u{e6a1}"
    } else if text_eq(ext, "json") {
        "\u{e60b}"
    } else if text_eq(ext, "yaml") || text_eq(ext, "yml") {
        "\u{e6a8}"
    } else if text_eq(ext, "toml") {
        "\u{e6b2}"
    } else if text_eq(ext, "xml") {
        "\u{f05c0}"
    } else if text_eq(ext, "csv") {
        "\u{f0219}"
    } else if text_eq(ext, "sql") {
        "\u{e706}"
    } else if text_eq(ext, "graphql") || text_eq(ext, "gql") {
        "\u{e662}"
    } else if text_eq(ext, "proto") {
        "\u{e6a5}"
    } else if text_eq(ext, "md") || text_eq(ext, "markdown") {
        "\u{e73e}"
    } else if text_eq(ext, "txt") {
        "\u{f0219}"
    } else if text_eq(ext, "pdf") {
        "\u{f0226}"
    } else if text_eq(ext, "doc") || text_eq(ext, "docx") {
        "\u{f0219}"
    } else if text_eq(ext, "rst") {
        "\u{f0219}"
    } else if text_eq(ext, "lock") {
        "\u{f023}"
    } else if text_eq(ext, "dockerfile") {
        "\u{e7b0}"
    } else if text_eq(ext, "nix") {
        "\u{f313}"
    } else if text_eq(ext, "cmake") {
        "\u{e615}"
    } else if text_eq(ext, "png") || text_eq(ext, "jpg") || text_eq(ext, "jpeg") || text_eq(ext, "gif") || text_eq(ext, "bmp") || text_eq(ext, "ico") || text_eq(ext, "webp") {
        "\u{f03e}"
    } else if text_eq(ext, "svg") {
        "\u{f0721}"
    } else if text_eq(ext, "gitignore") || text_eq(ext, "gitattributes") || text_eq(ext, "gitmodules") {
        "\u{e702}"
    } else {
        "\u{f15b}"
    }
}

} // verus!
