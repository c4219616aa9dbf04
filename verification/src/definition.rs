//! Classification of indexed chunks: definition kinds, definition signatures
//! and import kinds.

use vstd::prelude::*;
use crate::text::{chars_of, eq_chars, is_prefix_of, starts_with};

verus! {

/// Chunk kinds that represent symbol definitions (not usages, comments, ...).
pub open spec fn definition_kinds() -> Seq<Seq<char>> {
    seq![
        "Function"@,
        "Class"@,
        "Method"@,
        "Struct"@,
        "Trait"@,
        "Enum"@,
        "TypeAlias"@,
        "Interface"@,
    ]
}

/// Common definition prefixes of signatures across languages.
pub open spec fn definition_prefixes() -> Seq<Seq<char>> {
    seq![
        "fn "@,
        "def "@,
        "class "@,
        "struct "@,
        "enum "@,
        "trait "@,
        "type "@,
        "interface "@,
        "impl "@,
        "pub fn "@,
        "pub async fn "@,
        "pub struct "@,
        "pub enum "@,
        "pub trait "@,
        "pub type "@,
        "async fn "@,
        "const "@,
        "static "@,
    ]
}

/// Chunk kinds that hold import statements.
pub open spec fn import_kinds() -> Seq<Seq<char>> {
    seq!["Import"@, "Use"@, "Require"@, "Include"@, "Imports"@]
}

/// The characters that may follow a symbol's name in its definition.
pub open spec fn is_name_boundary(c: char) -> bool {
    c == '(' || c == '<' || c == ':' || c == ' ' || c == '\t'
}

/// `sig` is `prefix`, then `symbol`, then the end or a name boundary.
pub open spec fn defines_with(sig: Seq<char>, prefix: Seq<char>, symbol: Seq<char>) -> bool {
    &&& is_prefix_of(prefix, sig)
    &&& is_prefix_of(symbol, sig.skip(prefix.len() as int))
    &&& {
        let next = sig.skip(prefix.len() as int).skip(symbol.len() as int);
        next.len() == 0 || is_name_boundary(next[0])
    }
}

/// A chunk is a definition of `symbol`: its kind is a definition kind and its
/// signature is non-empty and starts with a definition prefix followed by the symbol.
pub open spec fn is_definition_chunk_spec(
    kind: Seq<char>,
    signature: Option<String>,
    symbol: Seq<char>,
) -> bool {
    &&& definition_kinds().contains(kind)
    &&& match signature {
        Some(s) => s@.len() > 0 && exists|k: int|
            0 <= k < definition_prefixes().len() && defines_with(
                s@,
                #[trigger] definition_prefixes()[k],
                symbol,
            ),
        None => false,
    }
}

/// Whether `kind` is one of the definition kinds.
pub fn is_definition_kind(kind: &str) -> (r: bool)
    ensures
        r == definition_kinds().contains(kind@),
{
    let k = chars_of(kind);
    let k = k.as_slice();
    let r = eq_chars(k, chars_of("Function").as_slice()) || eq_chars(k, chars_of("Class").as_slice())
        || eq_chars(k, chars_of("Method").as_slice()) || eq_chars(k, chars_of("Struct").as_slice())
        || eq_chars(k, chars_of("Trait").as_slice()) || eq_chars(k, chars_of("Enum").as_slice())
        || eq_chars(k, chars_of("TypeAlias").as_slice()) || eq_chars(
        k,
        chars_of("Interface").as_slice(),
    );
    proof {
        let d = definition_kinds();
        if d.contains(kind@) {
            let j = choose|j: int| 0 <= j < d.len() && d[j] == kind@;
            assert(r);
        }
        if r {
            assert(d[0] == "Function"@);
            assert(d[7] == "Interface"@);
        }
    }
    r
}

/// Whether `kind` names a chunk of import statements.
pub fn is_import_kind(kind: &str) -> (r: bool)
    ensures
        r == import_kinds().contains(kind@),
{
    let k = chars_of(kind);
    let k = k.as_slice();
    let r = eq_chars(k, chars_of("Import").as_slice()) || eq_chars(k, chars_of("Use").as_slice())
        || eq_chars(k, chars_of("Require").as_slice()) || eq_chars(
        k,
        chars_of("Include").as_slice(),
    ) || eq_chars(k, chars_of("Imports").as_slice());
    proof {
        let d = import_kinds();
        if d.contains(kind@) {
            let j = choose|j: int| 0 <= j < d.len() && d[j] == kind@;
            assert(r);
        }
        if r {
            assert(d[0] == "Import"@);
            assert(d[4] == "Imports"@);
        }
    }
    r
}

/// The definition prefixes, as character vectors.
fn definition_prefix_chars() -> (v: Vec<Vec<char>>)
    ensures
        v.deep_view() == definition_prefixes(),
{
    let v: Vec<Vec<char>> = vec![
        chars_of("fn "),
        chars_of("def "),
        chars_of("class "),
        chars_of("struct "),
        chars_of("enum "),
        chars_of("trait "),
        chars_of("type "),
        chars_of("interface "),
        chars_of("impl "),
        chars_of("pub fn "),
        chars_of("pub async fn "),
        chars_of("pub struct "),
        chars_of("pub enum "),
        chars_of("pub trait "),
        chars_of("pub type "),
        chars_of("async fn "),
        chars_of("const "),
        chars_of("static "),
    ];
    assert forall|k: int| 0 <= k < v@.len() implies v.deep_view()[k] == definition_prefixes()[k] by {
        assert(v.deep_view()[k] == v@[k]@);
    }
    assert(v.deep_view() =~= definition_prefixes());
    v
}

/// Whether `sig` is `prefix`, then `symbol`, then the end or a name boundary.
fn defines_with_exec(sig: &[char], prefix: &[char], symbol: &[char]) -> (r: bool)
    ensures
        r == defines_with(sig@, prefix@, symbol@),
{
    if !starts_with(sig, prefix) {
        return false;
    }
    let rest = &sig[prefix.len()..sig.len()];
    if !starts_with(rest, symbol) {
        return false;
    }
    let next = &rest[symbol.len()..rest.len()];
    if next.len() == 0 {
        return true;
    }
    let c = next[0];
    c == '(' || c == '<' || c == ':' || c == ' ' || c == '\t'
}

/// Check if a chunk is a definition of the given symbol.
///
/// A chunk is considered a definition if:
/// 1. Its kind is a definition kind (Function, Struct, Class, etc.)
/// 2. Its signature starts with a common definition pattern containing the symbol name,
///    followed by the end of the signature or one of `(`, `<`, `:`, space, tab.
pub fn is_definition_chunk(kind: &str, signature: &Option<String>, symbol: &str) -> (r: bool)
    ensures
        r == is_definition_chunk_spec(kind@, *signature, symbol@),
{
    if !is_definition_kind(kind) {
        return false;
    }
    let sig = match signature {
        Some(s) => chars_of(s.as_str()),
        None => {
            return false;
        },
    };
    if sig.len() == 0 {
        return false;
    }
    let sym = chars_of(symbol);
    let prefixes = definition_prefix_chars();
    let ghost pv = prefixes.deep_view();
    let mut k: usize = 0;
    while k < prefixes.len()
        invariant
            0 <= k <= prefixes@.len(),
            pv == prefixes.deep_view(),
            pv == definition_prefixes(),
            signature.is_some() && signature.unwrap()@ == sig@,
            sig@.len() > 0,
            sym@ == symbol@,
            definition_kinds().contains(kind@),
            forall|j: int| 0 <= j < k ==> !defines_with(sig@, #[trigger] pv[j], sym@),
        decreases prefixes@.len() - k,
    {
        let p = prefixes[k].as_slice();
        assert(p@ == pv[k as int]);
        if defines_with_exec(sig.as_slice(), p, sym.as_slice()) {
            assert(defines_with(sig@, definition_prefixes()[k as int], sym@));
            return true;
        }
        k = k + 1;
    }
    false
}

/// A definition kind, a definition prefix, the symbol and then the end or a name
/// boundary: such a chunk is always recognized as the symbol's definition.
pub proof fn law_definition_recognized(
    kind: Seq<char>,
    k: int,
    symbol: Seq<char>,
    tail: Seq<char>,
    signature: String,
)
    requires
        definition_kinds().contains(kind),
        0 <= k < definition_prefixes().len(),
        tail.len() == 0 || is_name_boundary(tail[0]),
        signature@ == definition_prefixes()[k] + symbol + tail,
    ensures
        is_definition_chunk_spec(kind, Some(signature), symbol),
{
    let p = definition_prefixes()[k];
    let s = signature@;
    assert(p.len() > 0) by {
        reveal_strlit("fn ");
        reveal_strlit("def ");
        reveal_strlit("class ");
        reveal_strlit("struct ");
        reveal_strlit("enum ");
        reveal_strlit("trait ");
        reveal_strlit("type ");
        reveal_strlit("interface ");
        reveal_strlit("impl ");
        reveal_strlit("pub fn ");
        reveal_strlit("pub async fn ");
        reveal_strlit("pub struct ");
        reveal_strlit("pub enum ");
        reveal_strlit("pub trait ");
        reveal_strlit("pub type ");
        reveal_strlit("async fn ");
        reveal_strlit("const ");
        reveal_strlit("static ");
    }
    assert(s.take(p.len() as int) =~= p);
    assert(s.skip(p.len() as int) =~= symbol + tail);
    assert((symbol + tail).take(symbol.len() as int) =~= symbol);
    assert((symbol + tail).skip(symbol.len() as int) =~= tail);
    assert(defines_with(s, p, symbol));
}

/// A recognized definition holds the symbol, right after a definition prefix, and the
/// character after it (if any) is a name boundary, so a longer name that merely starts
/// with the symbol is never taken for its definition.
pub proof fn law_definition_names_whole_symbol(
    kind: Seq<char>,
    signature: String,
    symbol: Seq<char>,
)
    requires
        is_definition_chunk_spec(kind, Some(signature), symbol),
    ensures
        exists|k: int|
            0 <= k < definition_prefixes().len() && {
                let p = #[trigger] definition_prefixes()[k];
                let s = signature@;
                &&& s.subrange(p.len() as int, p.len() as int + symbol.len()) == symbol
                &&& (s.len() == p.len() as int + symbol.len() || is_name_boundary(
                    s[p.len() as int + symbol.len()],
                ))
            },
{
    let s = signature@;
    let k = choose|k: int|
        0 <= k < definition_prefixes().len() && defines_with(
            s,
            #[trigger] definition_prefixes()[k],
            symbol,
        );
    let p = definition_prefixes()[k];
    let rest = s.skip(p.len() as int);
    assert(s.subrange(p.len() as int, p.len() as int + symbol.len()) =~= rest.take(symbol.len() as int));
    if s.len() != p.len() as int + symbol.len() {
        assert(rest.skip(symbol.len() as int)[0] == s[p.len() as int + symbol.len()]);
    }
}

} // verus!
