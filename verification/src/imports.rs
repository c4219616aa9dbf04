//! Import statements found in the content of import chunks.

use vstd::prelude::*;
use crate::text::{
    chars_of, contains_seq, find, find_first, is_prefix_of, lemma_find_char, lemma_find_first, lines_of,
    lines_spec, starts_with,
    string_of, trim, trim_end_char, trim_end_char_spec, trim_spec, trim_start_seq,
    trim_start_seq_spec, is_whitespace, trim_start_spec, trim_end_spec,
};

verus! {

/// Import/dependency item found in a file.
pub struct ImportItem {
    pub imported: String,
    pub line: usize,
    pub kind: String,
}

/// An import as plain values: what is imported, its line number, and its kind.
pub struct ImportView {
    pub imported: Seq<char>,
    pub line: int,
    pub kind: Seq<char>,
}

impl ImportItem {
    pub open spec fn view(&self) -> ImportView {
        ImportView { imported: self.imported@, line: self.line as int, kind: self.kind@ }
    }
}

/// The text imported after a keyword: trimmed, without trailing `;`s.
pub open spec fn import_target(rest: Seq<char>) -> Seq<char> {
    trim_end_char_spec(trim_spec(rest), ';')
}

/// The kind and the imported text of one line, if it is an import statement:
/// `use X`, `import X`, `from X ...`, `#include X`, or a line calling `require(`.
pub open spec fn parse_import_line(line: Seq<char>) -> Option<(Seq<char>, Seq<char>)> {
    let t = trim_spec(line);
    if t.len() == 0 {
        None
    } else if is_prefix_of("use "@, t) {
        Some(("use"@, import_target(t.skip(4))))
    } else if is_prefix_of("import "@, t) {
        Some(("import"@, import_target(t.skip(7))))
    } else if is_prefix_of("from "@, t) {
        Some(("import"@, import_target(t.skip(5))))
    } else if is_prefix_of("#include"@, t) {
        Some(("include"@, import_target(trim_start_seq_spec(t, "#include"@))))
    } else if contains_seq(t, "require("@) {
        Some(("require"@, t))
    } else {
        None
    }
}

/// The imports found in `lines`, numbered from `start`, in line order.
pub open spec fn imports_of_lines(lines: Seq<Seq<char>>, start: int) -> Seq<ImportView>
    decreases lines.len(),
{
    if lines.len() == 0 {
        seq![]
    } else {
        let prev = imports_of_lines(lines.drop_last(), start);
        match parse_import_line(lines.last()) {
            Some((kind, imported)) => prev.push(
                ImportView { imported, line: start + lines.len() - 1, kind },
            ),
            None => prev,
        }
    }
}

/// Every import line's number fits in a `usize`.
pub open spec fn import_lines_fit(content: Seq<char>, start_line: int) -> bool {
    forall|k: int|
        0 <= k < lines_spec(content).len() && (#[trigger] parse_import_line(
            lines_spec(content)[k],
        )) is Some ==> start_line + k <= usize::MAX
}

proof fn lemma_literal_lens()
    ensures
        "use "@.len() == 4,
        "import "@.len() == 7,
        "from "@.len() == 5,
{
    reveal_strlit("use ");
    reveal_strlit("import ");
    reveal_strlit("from ");
}

/// Parse one line as an import statement.
fn parse_line(line: &[char]) -> (r: Option<(String, String)>)
    ensures
        match (r, parse_import_line(line@)) {
            (Some((k, i)), Some((sk, si))) => k@ == sk && i@ == si,
            (None, None) => true,
            _ => false,
        },
{
    proof {
        lemma_literal_lens();
    }
    let t = trim(line);
    if t.len() == 0 {
        return None;
    }
    let use_kw = chars_of("use ");
    let import_kw = chars_of("import ");
    let from_kw = chars_of("from ");
    let include_kw = chars_of("#include");
    let require_kw = chars_of("require(");
    if starts_with(t, use_kw.as_slice()) {
        let target = trim_end_char(trim(&t[4..t.len()]), ';');
        return Some((string_of(chars_of("use").as_slice()), string_of(target)));
    }
    if starts_with(t, import_kw.as_slice()) {
        let target = trim_end_char(trim(&t[7..t.len()]), ';');
        return Some((string_of(chars_of("import").as_slice()), string_of(target)));
    }
    if starts_with(t, from_kw.as_slice()) {
        let target = trim_end_char(trim(&t[5..t.len()]), ';');
        return Some((string_of(chars_of("import").as_slice()), string_of(target)));
    }
    if starts_with(t, include_kw.as_slice()) {
        let target = trim_end_char(trim(trim_start_seq(t, include_kw.as_slice())), ';');
        return Some((string_of(chars_of("include").as_slice()), string_of(target)));
    }
    proof {
        lemma_find_first(t@, require_kw@);
    }
    if find(t, require_kw.as_slice()).is_some() {
        return Some((string_of(chars_of("require").as_slice()), string_of(t)));
    }
    None
}

/// Parse individual import statements from chunk content.
///
/// Handles: `use`, `import`, `from ... import`, `#include`, `require(...)`.
/// Each line is trimmed; the item's line number is `start_line` plus the line's
/// offset in `content`. Multi-line imports are only captured by their first line.
pub fn parse_import_lines(content: &str, start_line: usize) -> (items: Vec<ImportItem>)
    requires
        import_lines_fit(content@, start_line as int),
    ensures
        items@.map_values(|it: ImportItem| it.view()) == imports_of_lines(
            lines_spec(content@),
            start_line as int,
        ),
{
    let chars = chars_of(content);
    let lines = lines_of(chars.as_slice());
    let ghost lv = lines.deep_view();
    let mut items: Vec<ImportItem> = Vec::new();
    let mut offset: usize = 0;
    while offset < lines.len()
        invariant
            0 <= offset <= lines@.len(),
            lv == lines.deep_view(),
            lv == lines_spec(content@),
            import_lines_fit(content@, start_line as int),
            items@.map_values(|it: ImportItem| it.view()) == imports_of_lines(
                lv.take(offset as int),
                start_line as int,
            ),
        decreases lines@.len() - offset,
    {
        let line = lines[offset].as_slice();
        assert(line@ == lv[offset as int]);
        assert(lv.take(offset + 1).drop_last() =~= lv.take(offset as int));
        assert(lv.take(offset + 1).last() == lv[offset as int]);
        let ghost before = items@.map_values(|it: ImportItem| it.view());
        match parse_line(line) {
            Some((kind, imported)) => {
                assert(parse_import_line(lv[offset as int]) is Some);
                assert(start_line + offset <= usize::MAX);
                let item = ImportItem { imported, line: start_line + offset, kind };
                items.push(item);
                assert(items@.map_values(|it: ImportItem| it.view()) =~= before.push(item.view()));
            },
            None => {},
        }
        offset = offset + 1;
    }
    assert(lv.take(lv.len() as int) =~= lv);
    items
}


proof fn lemma_imports_concat(l1: Seq<Seq<char>>, l2: Seq<Seq<char>>, start: int)
    ensures
        imports_of_lines(l1 + l2, start) == imports_of_lines(l1, start) + imports_of_lines(
            l2,
            start + l1.len(),
        ),
    decreases l2.len(),
{
    if l2.len() == 0 {
        assert(l1 + l2 =~= l1);
        assert(imports_of_lines(l1, start) + seq![] =~= imports_of_lines(l1, start));
    } else {
        lemma_imports_concat(l1, l2.drop_last(), start);
        assert((l1 + l2).drop_last() =~= l1 + l2.drop_last());
        assert((l1 + l2).last() == l2.last());
        let a = imports_of_lines(l1, start);
        let b = imports_of_lines(l2.drop_last(), start + l1.len());
        match parse_import_line(l2.last()) {
            Some((kind, imported)) => {
                let v = ImportView { imported, line: start + l1.len() + l2.len() - 1, kind };
                assert((a + b).push(v) =~= a + b.push(v));
            },
            None => {},
        }
    }
}

proof fn lemma_lines_concat(a: Seq<char>, b: Seq<char>)
    requires
        a.len() == 0 || a.last() == '\n',
    ensures
        lines_spec(a + b) == lines_spec(a) + lines_spec(b),
    decreases a.len(),
{
    if a.len() == 0 {
        assert(a + b =~= b);
        assert(lines_spec(a) + lines_spec(b) =~= lines_spec(b));
    } else {
        let s = a + b;
        lemma_find_char(a, '\n');
        lemma_find_char(s, '\n');
        assert(a[a.len() - 1] == '\n');
        let i = find_first(a, seq!['\n'])->0;
        assert(s[i] == a[i]);
        let k = find_first(s, seq!['\n'])->0;
        if k < i {
            assert(a[k] == s[k]);
        }
        if k > i {
            assert(s[i] == '\n');
        }
        assert(k == i);
        assert(s.take(i) =~= a.take(i));
        let rest = a.skip(i + 1);
        assert(s.skip(i + 1) =~= rest + b);
        if rest.len() > 0 {
            assert(rest.last() == a.last());
        }
        lemma_lines_concat(rest, b);
        assert(lines_spec(s) == seq![crate::text::strip_cr(a.take(i))] + lines_spec(rest + b));
        assert(lines_spec(a) == seq![crate::text::strip_cr(a.take(i))] + lines_spec(rest));
        assert(seq![crate::text::strip_cr(a.take(i))] + (lines_spec(rest) + lines_spec(b))
            =~= seq![crate::text::strip_cr(a.take(i))] + lines_spec(rest) + lines_spec(b));
    }
}

/// Parsing two texts one after the other, the first ending with a line break (or
/// empty), gives the imports of the first and then those of the second, numbered on
/// from where the first text's lines end.
pub proof fn law_import_lines_concat(a: Seq<char>, b: Seq<char>, start: int)
    requires
        a.len() == 0 || a.last() == '\n',
    ensures
        imports_of_lines(lines_spec(a + b), start) == imports_of_lines(lines_spec(a), start)
            + imports_of_lines(lines_spec(b), start + lines_spec(a).len()),
{
    lemma_lines_concat(a, b);
    lemma_imports_concat(lines_spec(a), lines_spec(b), start);
}

proof fn lemma_trim_end_char_last(s: Seq<char>, c: char)
    ensures
        trim_end_char_spec(s, c).len() == 0 || trim_end_char_spec(s, c).last() != c,
    decreases s.len(),
{
    if s.len() > 0 && s.last() == c {
        lemma_trim_end_char_last(s.drop_last(), c);
    }
}

/// What an import statement imports never ends with `;` (`import java.util.List;`
/// imports `java.util.List`); only a `require(` line is kept whole.
pub proof fn law_imported_has_no_trailing_semicolon(line: Seq<char>)
    ensures
        match parse_import_line(line) {
            Some((kind, imported)) => kind != "require"@ ==> imported.len() == 0 || imported.last()
                != ';',
            None => true,
        },
{
    let t = trim_spec(line);
    lemma_trim_end_char_last(trim_spec(t.skip(4)), ';');
    lemma_trim_end_char_last(trim_spec(t.skip(7)), ';');
    lemma_trim_end_char_last(trim_spec(t.skip(5)), ';');
    lemma_trim_end_char_last(trim_spec(trim_start_seq_spec(t, "#include"@)), ';');
}

/// No import that parse_import_lines finds, but a `require(` line, ends with `;`.
pub proof fn law_imports_have_no_trailing_semicolon(lines: Seq<Seq<char>>, start: int)
    ensures
        forall|j: int|
            0 <= j < imports_of_lines(lines, start).len() && (#[trigger] imports_of_lines(
                lines,
                start,
            )[j]).kind != "require"@ ==> imports_of_lines(lines, start)[j].imported.len() == 0
                || imports_of_lines(lines, start)[j].imported.last() != ';',
    decreases lines.len(),
{
    if lines.len() > 0 {
        law_imports_have_no_trailing_semicolon(lines.drop_last(), start);
        law_imported_has_no_trailing_semicolon(lines.last());
        let prev = imports_of_lines(lines.drop_last(), start);
        let all = imports_of_lines(lines, start);
        assert forall|j: int| 0 <= j < prev.len() implies all[j] == prev[j] by {}
    }
}

/// A text that neither begins nor ends with whitespace is its own trim.
proof fn lemma_trim_plain(s: Seq<char>)
    requires
        s.len() > 0,
        !is_whitespace(s[0]),
        !is_whitespace(s.last()),
    ensures
        trim_spec(s) == s,
{
    assert(trim_start_spec(s) == s);
    assert(trim_end_spec(s) == s);
}

/// The imported text of `x` with an optional `;` after it.
proof fn lemma_target_plain(x: Seq<char>)
    requires
        x.len() > 0,
        !is_whitespace(x[0]),
        !is_whitespace(x.last()),
        x.last() != ';',
    ensures
        import_target(x) == x,
        import_target(x.push(';')) == x,
{
    assert(!is_whitespace(';'));
    lemma_trim_plain(x);
    let y = x.push(';');
    assert(y[0] == x[0]);
    lemma_trim_plain(y);
    assert(y.drop_last() =~= x);
}

/// The line `kw x` or `kw x;`, for a keyword that does not begin with whitespace.
proof fn lemma_keyword_line(kw: Seq<char>, x: Seq<char>, semi: bool)
    requires
        kw.len() > 0,
        !is_whitespace(kw[0]),
        x.len() > 0,
        !is_whitespace(x.last()),
        x.last() != ';',
    ensures
        ({
            let line = if semi {
                kw + x.push(';')
            } else {
                kw + x
            };
            &&& trim_spec(line) == line
            &&& line[0] == kw[0]
            &&& is_prefix_of(kw, line)
            &&& line.skip(kw.len() as int) == if semi {
                x.push(';')
            } else {
                x
            }
        }),
{
    assert(!is_whitespace(';'));
    let line = if semi {
        kw + x.push(';')
    } else {
        kw + x
    };
    assert(line.last() == if semi { ';' } else { x.last() });
    lemma_trim_plain(line);
    assert(line.take(kw.len() as int) =~= kw);
    if semi {
        assert(line.skip(kw.len() as int) =~= x.push(';'));
    } else {
        assert(line.skip(kw.len() as int) =~= x);
    }
}

/// `use x`, `import x`, `from x` and `#include x`, with or without a closing `;`, import
/// exactly `x` (for `x` without whitespace at its ends and not ending with `;`):
/// `import java.util.List;` imports `java.util.List`.
pub proof fn law_import_statement_forms(x: Seq<char>, semi: bool)
    requires
        x.len() > 0,
        !is_whitespace(x[0]),
        !is_whitespace(x.last()),
        x.last() != ';',
    ensures
        ({
            let end = if semi {
                x.push(';')
            } else {
                x
            };
            &&& parse_import_line("use "@ + end) == Some(("use"@, x))
            &&& parse_import_line("import "@ + end) == Some(("import"@, x))
            &&& parse_import_line("from "@ + end) == Some(("import"@, x))
            &&& parse_import_line("#include "@ + end) == Some(("include"@, x))
        }),
{
    reveal_strlit("use ");
    reveal_strlit("import ");
    reveal_strlit("from ");
    reveal_strlit("#include ");
    reveal_strlit("#include");
    let end = if semi {
        x.push(';')
    } else {
        x
    };
    assert(end[0] == x[0]);
    assert(!is_whitespace('u'));
    assert(!is_whitespace('i'));
    assert(!is_whitespace('f'));
    assert(!is_whitespace('#'));
    assert(is_whitespace(' '));
    lemma_target_plain(x);
    lemma_keyword_line("use "@, x, semi);
    lemma_keyword_line("import "@, x, semi);
    lemma_keyword_line("from "@, x, semi);
    lemma_keyword_line("#include "@, x, semi);
    let inc = "#include "@ + end;
    assert(!is_prefix_of("use "@, "import "@ + end)) by {
        assert(("import "@ + end).take(4)[0] == 'i');
    }
    assert(!is_prefix_of("use "@, "from "@ + end)) by {
        assert(("from "@ + end).take(4)[0] == 'f');
    }
    assert(!is_prefix_of("import "@, "from "@ + end)) by {
        if ("from "@ + end).len() >= 7 {
            assert(("from "@ + end).take(7)[0] == 'f');
        }
    }
    assert(!is_prefix_of("use "@, inc)) by {
        assert(inc.take(4)[0] == '#');
    }
    assert(!is_prefix_of("import "@, inc)) by {
        assert(inc.take(7)[0] == '#');
    }
    assert(!is_prefix_of("from "@, inc)) by {
        assert(inc.take(5)[0] == '#');
    }
    assert(inc.take(8) =~= "#include"@);
    let rest = inc.skip(8);
    assert(rest =~= seq![' '] + end);
    assert(!is_prefix_of("#include"@, rest)) by {
        if rest.len() >= 8 {
            assert(rest.take(8)[0] == ' ');
        }
    }
    assert(trim_start_seq_spec(rest, "#include"@) == rest);
    assert(trim_start_seq_spec(inc, "#include"@) == rest);
    assert(trim_start_spec(rest) == trim_start_spec(end)) by {
        assert(rest.drop_first() =~= end);
    }
    assert(trim_spec(rest) == trim_spec(end));
}

} // verus!
