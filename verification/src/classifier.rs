use vstd::prelude::*;

use crate::text::str_eq;

verus! {

/// Membership in the fixed set of recognized source-code file extensions.
/// The comparison is exact, so the test is case-sensitive: `PY` or `Rs` is
/// not recognized.
pub open spec fn recognized_extension(ext: Seq<char>) -> bool {
    ||| ext == "go"@
    ||| ext == "rs"@
    ||| ext == "cpp"@
    ||| ext == "java"@
    ||| ext == "dart"@
    ||| ext == "py"@
    ||| ext == "js"@
    ||| ext == "ts"@
    ||| ext == "kt"@
    ||| ext == "swift"@
    ||| ext == "rb"@
    ||| ext == "php"@
    ||| ext == "cs"@
    ||| ext == "c"@
    ||| ext == "c++"@
    ||| ext == "c#"@
    ||| ext == "scala"@
    ||| ext == "groovy"@
    ||| ext == "perl"@
    ||| ext == "r"@
    ||| ext == "sql"@
    ||| ext == "pl"@
    ||| ext == "asm"@
    ||| ext == "vb"@
    ||| ext == "lua"@
    ||| ext == "haskell"@
    ||| ext == "clojure"@
    ||| ext == "elixir"@
    ||| ext == "f#"@
    ||| ext == "fortran"@
    ||| ext == "lisp"@
    ||| ext == "ocaml"@
    ||| ext == "pascal"@
    ||| ext == "prolog"@
    ||| ext == "racket"@
}

/// Decides whether `ext` (an extension with no leading dot) is a recognized
/// source-code extension.
pub fn is_source_extension(ext: &str) -> (r: bool)
    ensures
        r == recognized_extension(ext@),
{
    str_eq(ext, "go") || str_eq(ext, "rs") || str_eq(ext, "cpp") || str_eq(ext, "java")
        || str_eq(ext, "dart") || str_eq(ext, "py") || str_eq(ext, "js") || str_eq(ext, "ts")
        || str_eq(ext, "kt") || str_eq(ext, "swift") || str_eq(ext, "rb") || str_eq(ext, "php")
        || str_eq(ext, "cs") || str_eq(ext, "c") || str_eq(ext, "c++") || str_eq(ext, "c#")
        || str_eq(ext, "scala") || str_eq(ext, "groovy") || str_eq(ext, "perl")
        || str_eq(ext, "r") || str_eq(ext, "sql") || str_eq(ext, "pl") || str_eq(ext, "asm")
        || str_eq(ext, "vb") || str_eq(ext, "lua") || str_eq(ext, "haskell")
        || str_eq(ext, "clojure") || str_eq(ext, "elixir") || str_eq(ext, "f#")
        || str_eq(ext, "fortran") || str_eq(ext, "lisp") || str_eq(ext, "ocaml")
        || str_eq(ext, "pascal") || str_eq(ext, "prolog") || str_eq(ext, "racket")
}

} // verus!
