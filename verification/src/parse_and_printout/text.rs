//! The words that TypeScript reserves, which cannot name a generated declaration.
use vstd::prelude::*;

verus! {

/// TypeScript's reserved words, its strict-mode reserved words and its predefined type names.
pub open spec fn reserved_words() -> Seq<Seq<char>> {
    seq![
        "break"@, "case"@, "catch"@, "class"@, "const"@, "continue"@, "debugger"@, "default"@,
        "delete"@, "do"@, "else"@, "enum"@, "export"@, "extends"@, "false"@, "finally"@, "for"@,
        "function"@, "if"@, "import"@, "in"@, "instanceof"@, "new"@, "null"@, "return"@,
        "super"@, "switch"@, "this"@, "throw"@, "true"@, "try"@, "typeof"@, "var"@, "void"@,
        "while"@, "with"@, "implements"@, "interface"@, "let"@, "package"@, "private"@,
        "protected"@, "public"@, "static"@, "yield"@, "any"@, "boolean"@, "number"@, "string"@,
        "symbol"@,
    ]
}

/// The reserved words, in the order of `reserved_words`.
pub fn ts_reserved_words() -> (res: Vec<&'static str>)
    ensures
        res@.map_values(|w: &str| w@) == reserved_words(),
{
    let res = vec![
        "break", "case", "catch", "class", "const", "continue", "debugger", "default",
        "delete", "do", "else", "enum", "export", "extends", "false", "finally", "for",
        "function", "if", "import", "in", "instanceof", "new", "null", "return",
        "super", "switch", "this", "throw", "true", "try", "typeof", "var", "void",
        "while", "with", "implements", "interface", "let", "package", "private",
        "protected", "public", "static", "yield", "any", "boolean", "number", "string",
        "symbol",
    ];
    assert(res@.map_values(|w: &str| w@) =~= reserved_words());
    res
}

} // verus!
