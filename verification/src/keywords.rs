//! The identifiers that Rust, the language of the emitted bindings, reserves.

use crate::text::str_eq;
use vstd::prelude::*;
use vstd::string::*;

verus! {

/// Whether `s` is an identifier that the target language reserves: one of the
/// keywords of Rust, of any edition, those in use and those set aside for
/// later use alike. Words that are keywords in some places only, such as
/// `union`, are valid identifiers and are not among them.
pub open spec fn is_reserved_word(s: Seq<char>) -> bool {
    ||| s == "as"@
    ||| s == "break"@
    ||| s == "const"@
    ||| s == "continue"@
    ||| s == "crate"@
    ||| s == "else"@
    ||| s == "enum"@
    ||| s == "extern"@
    ||| s == "false"@
    ||| s == "fn"@
    ||| s == "for"@
    ||| s == "if"@
    ||| s == "impl"@
    ||| s == "in"@
    ||| s == "let"@
    ||| s == "loop"@
    ||| s == "match"@
    ||| s == "mod"@
    ||| s == "move"@
    ||| s == "mut"@
    ||| s == "pub"@
    ||| s == "ref"@
    ||| s == "return"@
    ||| s == "self"@
    ||| s == "Self"@
    ||| s == "static"@
    ||| s == "struct"@
    ||| s == "super"@
    ||| s == "trait"@
    ||| s == "true"@
    ||| s == "type"@
    ||| s == "unsafe"@
    ||| s == "use"@
    ||| s == "where"@
    ||| s == "while"@
    ||| s == "async"@
    ||| s == "await"@
    ||| s == "dyn"@
    ||| s == "abstract"@
    ||| s == "become"@
    ||| s == "box"@
    ||| s == "do"@
    ||| s == "final"@
    ||| s == "macro"@
    ||| s == "override"@
    ||| s == "priv"@
    ||| s == "typeof"@
    ||| s == "unsized"@
    ||| s == "virtual"@
    ||| s == "yield"@
    ||| s == "try"@
    ||| s == "gen"@
}

/// Reveals what the reserved words are, character by character.
pub proof fn lemma_reserved_words()
    ensures
        "as"@ == seq!['a', 's'],
        "break"@ == seq!['b', 'r', 'e', 'a', 'k'],
        "const"@ == seq!['c', 'o', 'n', 's', 't'],
        "continue"@ == seq!['c', 'o', 'n', 't', 'i', 'n', 'u', 'e'],
        "crate"@ == seq!['c', 'r', 'a', 't', 'e'],
        "else"@ == seq!['e', 'l', 's', 'e'],
        "enum"@ == seq!['e', 'n', 'u', 'm'],
        "extern"@ == seq!['e', 'x', 't', 'e', 'r', 'n'],
        "false"@ == seq!['f', 'a', 'l', 's', 'e'],
        "fn"@ == seq!['f', 'n'],
        "for"@ == seq!['f', 'o', 'r'],
        "if"@ == seq!['i', 'f'],
        "impl"@ == seq!['i', 'm', 'p', 'l'],
        "in"@ == seq!['i', 'n'],
        "let"@ == seq!['l', 'e', 't'],
        "loop"@ == seq!['l', 'o', 'o', 'p'],
        "match"@ == seq!['m', 'a', 't', 'c', 'h'],
        "mod"@ == seq!['m', 'o', 'd'],
        "move"@ == seq!['m', 'o', 'v', 'e'],
        "mut"@ == seq!['m', 'u', 't'],
        "pub"@ == seq!['p', 'u', 'b'],
        "ref"@ == seq!['r', 'e', 'f'],
        "return"@ == seq!['r', 'e', 't', 'u', 'r', 'n'],
        "self"@ == seq!['s', 'e', 'l', 'f'],
        "Self"@ == seq!['S', 'e', 'l', 'f'],
        "static"@ == seq!['s', 't', 'a', 't', 'i', 'c'],
        "struct"@ == seq!['s', 't', 'r', 'u', 'c', 't'],
        "super"@ == seq!['s', 'u', 'p', 'e', 'r'],
        "trait"@ == seq!['t', 'r', 'a', 'i', 't'],
        "true"@ == seq!['t', 'r', 'u', 'e'],
        "type"@ == seq!['t', 'y', 'p', 'e'],
        "unsafe"@ == seq!['u', 'n', 's', 'a', 'f', 'e'],
        "use"@ == seq!['u', 's', 'e'],
        "where"@ == seq!['w', 'h', 'e', 'r', 'e'],
        "while"@ == seq!['w', 'h', 'i', 'l', 'e'],
        "async"@ == seq!['a', 's', 'y', 'n', 'c'],
        "await"@ == seq!['a', 'w', 'a', 'i', 't'],
        "dyn"@ == seq!['d', 'y', 'n'],
        "abstract"@ == seq!['a', 'b', 's', 't', 'r', 'a', 'c', 't'],
        "become"@ == seq!['b', 'e', 'c', 'o', 'm', 'e'],
        "box"@ == seq!['b', 'o', 'x'],
        "do"@ == seq!['d', 'o'],
        "final"@ == seq!['f', 'i', 'n', 'a', 'l'],
        "macro"@ == seq!['m', 'a', 'c', 'r', 'o'],
        "override"@ == seq!['o', 'v', 'e', 'r', 'r', 'i', 'd', 'e'],
        "priv"@ == seq!['p', 'r', 'i', 'v'],
        "typeof"@ == seq!['t', 'y', 'p', 'e', 'o', 'f'],
        "unsized"@ == seq!['u', 'n', 's', 'i', 'z', 'e', 'd'],
        "virtual"@ == seq!['v', 'i', 'r', 't', 'u', 'a', 'l'],
        "yield"@ == seq!['y', 'i', 'e', 'l', 'd'],
        "try"@ == seq!['t', 'r', 'y'],
        "gen"@ == seq!['g', 'e', 'n'],
{
    reveal_strlit("as");
    reveal_strlit("break");
    reveal_strlit("const");
    reveal_strlit("continue");
    reveal_strlit("crate");
    reveal_strlit("else");
    reveal_strlit("enum");
    reveal_strlit("extern");
    reveal_strlit("false");
    reveal_strlit("fn");
    reveal_strlit("for");
    reveal_strlit("if");
    reveal_strlit("impl");
    reveal_strlit("in");
    reveal_strlit("let");
    reveal_strlit("loop");
    reveal_strlit("match");
    reveal_strlit("mod");
    reveal_strlit("move");
    reveal_strlit("mut");
    reveal_strlit("pub");
    reveal_strlit("ref");
    reveal_strlit("return");
    reveal_strlit("self");
    reveal_strlit("Self");
    reveal_strlit("static");
    reveal_strlit("struct");
    reveal_strlit("super");
    reveal_strlit("trait");
    reveal_strlit("true");
    reveal_strlit("type");
    reveal_strlit("unsafe");
    reveal_strlit("use");
    reveal_strlit("where");
    reveal_strlit("while");
    reveal_strlit("async");
    reveal_strlit("await");
    reveal_strlit("dyn");
    reveal_strlit("abstract");
    reveal_strlit("become");
    reveal_strlit("box");
    reveal_strlit("do");
    reveal_strlit("final");
    reveal_strlit("macro");
    reveal_strlit("override");
    reveal_strlit("priv");
    reveal_strlit("typeof");
    reveal_strlit("unsized");
    reveal_strlit("virtual");
    reveal_strlit("yield");
    reveal_strlit("try");
    reveal_strlit("gen");
    assert("as"@ =~= seq!['a', 's']);
    assert("break"@ =~= seq!['b', 'r', 'e', 'a', 'k']);
    assert("const"@ =~= seq!['c', 'o', 'n', 's', 't']);
    assert("continue"@ =~= seq!['c', 'o', 'n', 't', 'i', 'n', 'u', 'e']);
    assert("crate"@ =~= seq!['c', 'r', 'a', 't', 'e']);
    assert("else"@ =~= seq!['e', 'l', 's', 'e']);
    assert("enum"@ =~= seq!['e', 'n', 'u', 'm']);
    assert("extern"@ =~= seq!['e', 'x', 't', 'e', 'r', 'n']);
    assert("false"@ =~= seq!['f', 'a', 'l', 's', 'e']);
    assert("fn"@ =~= seq!['f', 'n']);
    assert("for"@ =~= seq!['f', 'o', 'r']);
    assert("if"@ =~= seq!['i', 'f']);
    assert("impl"@ =~= seq!['i', 'm', 'p', 'l']);
    assert("in"@ =~= seq!['i', 'n']);
    assert("let"@ =~= seq!['l', 'e', 't']);
    assert("loop"@ =~= seq!['l', 'o', 'o', 'p']);
    assert("match"@ =~= seq!['m', 'a', 't', 'c', 'h']);
    assert("mod"@ =~= seq!['m', 'o', 'd']);
    assert("move"@ =~= seq!['m', 'o', 'v', 'e']);
    assert("mut"@ =~= seq!['m', 'u', 't']);
    assert("pub"@ =~= seq!['p', 'u', 'b']);
    assert("ref"@ =~= seq!['r', 'e', 'f']);
    assert("return"@ =~= seq!['r', 'e', 't', 'u', 'r', 'n']);
    assert("self"@ =~= seq!['s', 'e', 'l', 'f']);
    assert("Self"@ =~= seq!['S', 'e', 'l', 'f']);
    assert("static"@ =~= seq!['s', 't', 'a', 't', 'i', 'c']);
    assert("struct"@ =~= seq!['s', 't', 'r', 'u', 'c', 't']);
    assert("super"@ =~= seq!['s', 'u', 'p', 'e', 'r']);
    assert("trait"@ =~= seq!['t', 'r', 'a', 'i', 't']);
    assert("true"@ =~= seq!['t', 'r', 'u', 'e']);
    assert("type"@ =~= seq!['t', 'y', 'p', 'e']);
    assert("unsafe"@ =~= seq!['u', 'n', 's', 'a', 'f', 'e']);
    assert("use"@ =~= seq!['u', 's', 'e']);
    assert("where"@ =~= seq!['w', 'h', 'e', 'r', 'e']);
    assert("while"@ =~= seq!['w', 'h', 'i', 'l', 'e']);
    assert("async"@ =~= seq!['a', 's', 'y', 'n', 'c']);
    assert("await"@ =~= seq!['a', 'w', 'a', 'i', 't']);
    assert("dyn"@ =~= seq!['d', 'y', 'n']);
    assert("abstract"@ =~= seq!['a', 'b', 's', 't', 'r', 'a', 'c', 't']);
    assert("become"@ =~= seq!['b', 'e', 'c', 'o', 'm', 'e']);
    assert("box"@ =~= seq!['b', 'o', 'x']);
    assert("do"@ =~= seq!['d', 'o']);
    assert("final"@ =~= seq!['f', 'i', 'n', 'a', 'l']);
    assert("macro"@ =~= seq!['m', 'a', 'c', 'r', 'o']);
    assert("override"@ =~= seq!['o', 'v', 'e', 'r', 'r', 'i', 'd', 'e']);
    assert("priv"@ =~= seq!['p', 'r', 'i', 'v']);
    assert("typeof"@ =~= seq!['t', 'y', 'p', 'e', 'o', 'f']);
    assert("unsized"@ =~= seq!['u', 'n', 's', 'i', 'z', 'e', 'd']);
    assert("virtual"@ =~= seq!['v', 'i', 'r', 't', 'u', 'a', 'l']);
    assert("yield"@ =~= seq!['y', 'i', 'e', 'l', 'd']);
    assert("try"@ =~= seq!['t', 'r', 'y']);
    assert("gen"@ =~= seq!['g', 'e', 'n']);
}

/// No reserved word is empty, and none starts with the escape marker.
pub proof fn lemma_reserved_word_start(s: Seq<char>)
    requires
        is_reserved_word(s),
    ensures
        s.len() > 0,
        s[0] != '_',
{
    lemma_reserved_words();
}

/// Tells whether `name` is a reserved word of the target language.
pub fn is_reserved(name: &str) -> (r: bool)
    ensures
        r == is_reserved_word(name@),
{
    str_eq(name, "as")
        || str_eq(name, "break")
        || str_eq(name, "const")
        || str_eq(name, "continue")
        || str_eq(name, "crate")
        || str_eq(name, "else")
        || str_eq(name, "enum")
        || str_eq(name, "extern")
        || str_eq(name, "false")
        || str_eq(name, "fn")
        || str_eq(name, "for")
        || str_eq(name, "if")
        || str_eq(name, "impl")
        || str_eq(name, "in")
        || str_eq(name, "let")
        || str_eq(name, "loop")
        || str_eq(name, "match")
        || str_eq(name, "mod")
        || str_eq(name, "move")
        || str_eq(name, "mut")
        || str_eq(name, "pub")
        || str_eq(name, "ref")
        || str_eq(name, "return")
        || str_eq(name, "self")
        || str_eq(name, "Self")
        || str_eq(name, "static")
        || str_eq(name, "struct")
        || str_eq(name, "super")
        || str_eq(name, "trait")
        || str_eq(name, "true")
        || str_eq(name, "type")
        || str_eq(name, "unsafe")
        || str_eq(name, "use")
        || str_eq(name, "where")
        || str_eq(name, "while")
        || str_eq(name, "async")
        || str_eq(name, "await")
        || str_eq(name, "dyn")
        || str_eq(name, "abstract")
        || str_eq(name, "become")
        || str_eq(name, "box")
        || str_eq(name, "do")
        || str_eq(name, "final")
        || str_eq(name, "macro")
        || str_eq(name, "override")
        || str_eq(name, "priv")
        || str_eq(name, "typeof")
        || str_eq(name, "unsized")
        || str_eq(name, "virtual")
        || str_eq(name, "yield")
        || str_eq(name, "try")
        || str_eq(name, "gen")
}

} // verus!
