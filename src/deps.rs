//! The dependency closure of a tracked executable, read from the line-oriented
//! output of the dynamic linker's diagnostic tool (`ldd`), and the resolution of
//! a command token to an executable path.
use vstd::prelude::*;
use vstd::string::StrSliceExecFns;
use crate::text::{
    base_name, find_base_start, find_char_from, first_char_from, has_prefix, is_prefix,
    lemma_base_start_bounds, lemma_first_char_bounds, trim, trim_white,
};

verus! {

/// An `=>` starts at index `i` of `s`.
pub open spec fn arrow_at(s: Seq<char>, i: int) -> bool {
    0 <= i && i + 1 < s.len() && s[i] == '=' && s[i + 1] == '>'
}

/// The first index at or after `i` where an `=>` starts, or the length of `s`.
pub open spec fn first_arrow_from(s: Seq<char>, i: int) -> int
    decreases s.len() - i,
{
    if i < 0 || i + 1 >= s.len() {
        s.len() as int
    } else if arrow_at(s, i) {
        i
    } else {
        first_arrow_from(s, i + 1)
    }
}

/// The part of a row that names the object: the text between its first and
/// second `=>`, or the whole row where it has no `=>`.
pub open spec fn row_segment(row: Seq<char>) -> Seq<char> {
    let a = first_arrow_from(row, 0);
    if a == row.len() {
        row
    } else {
        row.subrange(a + 2, first_arrow_from(row, a + 2))
    }
}

/// What a row of the tool's output names: its segment up to the first `(`,
/// without white space at either end.
///
/// `"<name> => <resolved_path> (<address>)"` names `<resolved_path>`;
/// `"<name> (<address>)"` names `<name>`.
pub open spec fn ldd_row_path(row: Seq<char>) -> Seq<char> {
    let seg = row_segment(row);
    trim(seg.subrange(0, first_char_from(seg, '(', 0)))
}

/// An entry of the closure is recorded unless it is empty, names the virtual
/// dynamic shared object (which has no file, so the tool prints it as a bare
/// name), or is the C runtime library, by name or by resolved path.
pub open spec fn needed_entry(path: Seq<char>) -> bool {
    !(path.len() == 0 || is_prefix("linux-vdso.so"@, path) || is_prefix(
        "libc.so"@,
        base_name(path),
    ))
}

/// The lines of `s`: each `\n` ends one line and starts the next, so there is
/// always at least one, and `""` has one empty line.
pub open spec fn split_lines(s: Seq<char>) -> Seq<Seq<char>>
    decreases s.len(),
{
    if s.len() == 0 {
        seq![Seq::empty()]
    } else {
        let init = split_lines(s.drop_last());
        if s.last() == '\n' {
            init.push(Seq::empty())
        } else {
            init.update(init.len() - 1, init.last().push(s.last()))
        }
    }
}

/// The entries that the tool's output `out` names and that are recorded.
pub open spec fn closure_entries(out: Seq<char>) -> Set<Seq<char>> {
    split_lines(out).map_values(|row: Seq<char>| ldd_row_path(row)).to_set().filter(
        |e: Seq<char>| needed_entry(e),
    )
}

/// A command token is path-like when it is absolute or explicitly relative.
pub open spec fn path_like(cmd: Seq<char>) -> bool {
    is_prefix("./"@, cmd) || is_prefix("../"@, cmd) || is_prefix("/"@, cmd)
}

proof fn lemma_split_lines_nonempty(s: Seq<char>)
    ensures
        split_lines(s).len() >= 1,
    decreases s.len(),
{
    if s.len() > 0 {
        lemma_split_lines_nonempty(s.drop_last());
    }
}

proof fn lemma_first_arrow_bounds(s: Seq<char>, i: int)
    requires
        0 <= i <= s.len(),
    ensures
        i <= first_arrow_from(s, i) <= s.len(),
        first_arrow_from(s, i) < s.len() ==> arrow_at(s, first_arrow_from(s, i)),
    decreases s.len() - i,
{
    if i + 1 < s.len() && !arrow_at(s, i) {
        lemma_first_arrow_bounds(s, i + 1);
    }
}

/// The first index at or after `from` where an `=>` starts, or the length `n` of `s`.
fn find_arrow_from(s: &str, n: usize, from: usize) -> (r: usize)
    requires
        n == s@.len(),
        from <= n,
    ensures
        r == first_arrow_from(s@, from as int),
{
    let mut i = from;
    while i < n && i + 1 < n
        invariant
            n == s@.len(),
            from <= i <= n,
            first_arrow_from(s@, from as int) == first_arrow_from(s@, i as int),
        decreases n - i,
    {
        if s.get_char(i) == '=' && s.get_char(i + 1) == '>' {
            return i;
        }
        i = i + 1;
    }
    n
}

/// The path that one row of the tool's output names.
pub fn trim_ldd_row_to_only_path(path: &str) -> (r: &str)
    ensures
        r@ == ldd_row_path(path@),
{
    let n = path.unicode_len();
    let a = find_arrow_from(path, n, 0);
    proof {
        lemma_first_arrow_bounds(path@, 0);
    }
    let segment = if a == n {
        path
    } else {
        proof {
            lemma_first_arrow_bounds(path@, a + 2);
        }
        let b = find_arrow_from(path, n, a + 2);
        path.substring_char(a + 2, b)
    };
    let m = segment.unicode_len();
    let p = find_char_from(segment, m, '(', 0);
    proof {
        lemma_first_char_bounds(segment@, '(', 0);
    }
    trim_white(segment.substring_char(0, p))
}

/// Whether an entry of the closure is recorded.
pub fn is_needed_shared_lib_path(path: &str) -> (r: bool)
    ensures
        r == needed_entry(path@),
{
    let n = path.unicode_len();
    if n == 0 {
        return false;
    }
    let start = find_base_start(path, n);
    proof {
        lemma_base_start_bounds(path@);
    }
    let base = path.substring_char(start, n);
    !(has_prefix(path, "linux-vdso.so") || has_prefix(base, "libc.so"))
}

/// Whether a command token is used as it stands, without a search of the
/// executable search path.
pub fn is_path_like(cmd: &str) -> (r: bool)
    ensures
        r == path_like(cmd@),
{
    has_prefix(cmd, "./") || has_prefix(cmd, "../") || has_prefix(cmd, "/")
}

/// The lines of `text`, as `str::split("\n")` gives them.
pub fn split_rows<'a>(text: &'a str) -> (r: Vec<&'a str>)
    ensures
        r@.map_values(|row: &str| row@) == split_lines(text@),
{
    let n = text.unicode_len();
    let mut rows: Vec<&'a str> = Vec::new();
    let mut start: usize = 0;
    let mut i: usize = 0;
    assert(text@.subrange(0, 0) =~= Seq::<char>::empty());
    while i < n
        invariant
            n == text@.len(),
            start <= i <= n,
            split_lines(text@.subrange(0, i as int)) == rows@.map_values(|row: &str| row@).push(
                text@.subrange(start as int, i as int),
            ),
        decreases n - i,
    {
        let c = text.get_char(i);
        let ghost prefix = text@.subrange(0, i + 1);
        let ghost done = rows@.map_values(|row: &str| row@);
        assert(prefix.drop_last() =~= text@.subrange(0, i as int));
        assert(prefix.last() == c);
        if c == '\n' {
            let row = text.substring_char(start, i);
            rows.push(row);
            start = i + 1;
            assert(text@.subrange(start as int, i + 1) =~= Seq::<char>::empty());
            assert(rows@.map_values(|row: &str| row@) =~= done.push(row@));
        } else {
            assert(text@.subrange(start as int, i + 1) =~= text@.subrange(
                start as int,
                i as int,
            ).push(c));
            assert(split_lines(prefix) =~= done.push(text@.subrange(start as int, i + 1)));
        }
        i = i + 1;
    }
    assert(text@.subrange(0, n as int) =~= text@);
    let ghost done = rows@.map_values(|row: &str| row@);
    let last = text.substring_char(start, n);
    rows.push(last);
    assert(rows@.map_values(|row: &str| row@) =~= done.push(last@));
    rows
}

/// Whether `entries` holds `e`.
fn holds_entry(entries: &Vec<String>, e: &String) -> (r: bool)
    ensures
        r == exists|i: int| 0 <= i < entries@.len() && #[trigger] entries@[i]@ == e@,
{
    let mut j: usize = 0;
    while j < entries.len()
        invariant
            j <= entries.len(),
            forall|i: int| 0 <= i < j ==> #[trigger] entries@[i]@ != e@,
        decreases entries.len() - j,
    {
        if entries[j] == *e {
            return true;
        }
        j = j + 1;
    }
    false
}

/// The entries that the tool's output names and that are recorded, each once.
pub fn dependency_entries(ldd_output: &str) -> (r: Vec<String>)
    ensures
        r@.map_values(|e: String| e@).no_duplicates(),
        r@.map_values(|e: String| e@).to_set() == closure_entries(ldd_output@),
{
    let rows = split_rows(ldd_output);
    let ghost lines = split_lines(ldd_output@);
    assert(rows@.len() == lines.len());
    let mut entries: Vec<String> = Vec::new();
    let mut k: usize = 0;
    while k < rows.len()
        invariant
            rows@.map_values(|row: &str| row@) == lines,
            rows@.len() == lines.len(),
            k <= rows.len(),
            forall|i: int, i2: int|
                0 <= i < entries@.len() && 0 <= i2 < entries@.len() && i != i2 ==> #[trigger] entries@[i]@
                    != #[trigger] entries@[i2]@,
            forall|i: int|
                0 <= i < entries@.len() ==> needed_entry(#[trigger] entries@[i]@) && exists|j: int|
                    0 <= j < k && ldd_row_path(lines[j]) == entries@[i]@,
            forall|j: int|
                0 <= j < k && needed_entry(#[trigger] ldd_row_path(lines[j])) ==> exists|i: int|
                    0 <= i < entries@.len() && #[trigger] entries@[i]@ == ldd_row_path(lines[j]),
        decreases rows.len() - k,
    {
        assert(rows@.map_values(|row: &str| row@)[k as int] == rows@[k as int]@);
        let path = trim_ldd_row_to_only_path(rows[k]);
        assert(ldd_row_path(lines[k as int]) == path@);
        if is_needed_shared_lib_path(path) {
            let owned = path.to_owned();
            if !holds_entry(&entries, &owned) {
                let ghost before = entries@;
                entries.push(owned);
                assert(entries@[before.len() as int]@ == path@);
                assert forall|i: int| 0 <= i < entries@.len() implies needed_entry(
                    #[trigger] entries@[i]@,
                ) && exists|j: int| 0 <= j < k + 1 && ldd_row_path(lines[j]) == entries@[i]@ by {
                    if i < before.len() {
                        assert(entries@[i] == before[i]);
                    } else {
                        assert(ldd_row_path(lines[k as int]) == entries@[i]@);
                    }
                }
                assert forall|j: int|
                    0 <= j < k && needed_entry(#[trigger] ldd_row_path(lines[j])) implies exists|
                    i: int,
                | 0 <= i < entries@.len() && #[trigger] entries@[i]@ == ldd_row_path(lines[j]) by {
                    let i = choose|i: int|
                        0 <= i < before.len() && #[trigger] before[i]@ == ldd_row_path(lines[j]);
                    assert(entries@[i] == before[i]);
                }
            } else {
                proof {
                    let i0 = choose|i: int|
                        0 <= i < entries@.len() && #[trigger] entries@[i]@ == path@;
                    assert(0 <= i0 < entries@.len() && entries@[i0]@ == ldd_row_path(
                        lines[k as int],
                    ));
                }
            }
        }
        k = k + 1;
    }
    let ghost view = entries@.map_values(|x: String| x@);
    let ghost mapped = lines.map_values(|row: Seq<char>| ldd_row_path(row));
    assert forall|e: Seq<char>| #[trigger] closure_entries(ldd_output@).contains(e) implies view.contains(
        e,
    ) by {
        let j = choose|j: int| 0 <= j < mapped.len() && mapped[j] == e;
        assert(ldd_row_path(lines[j]) == e);
        let i = choose|i: int| 0 <= i < entries@.len() && #[trigger] entries@[i]@ == ldd_row_path(
            lines[j],
        );
        assert(view[i] == e);
    }
    assert forall|e: Seq<char>| #[trigger] view.contains(e) implies closure_entries(
        ldd_output@,
    ).contains(e) by {
        let i = choose|i: int| 0 <= i < view.len() && view[i] == e;
        assert(entries@[i]@ == e);
        let j = choose|j: int| 0 <= j < k && ldd_row_path(lines[j]) == entries@[i]@;
        assert(mapped[j] == e);
    }
    assert(closure_entries(ldd_output@) =~= view.to_set());
    assert forall|i: int, i2: int| 0 <= i < view.len() && 0 <= i2 < view.len() && i != i2 implies view[i] != view[i2] by {
        assert(entries@[i]@ != entries@[i2]@);
    }
    entries
}

/// The first line of what the executable search printed, where it is not
/// empty: the command's fully qualified path.
pub fn first_search_result(search_output: &str) -> (r: Option<String>)
    ensures
        r is Some <==> split_lines(search_output@)[0].len() > 0,
        r matches Some(p) ==> p@ == split_lines(search_output@)[0],
{
    let rows = split_rows(search_output);
    proof {
        lemma_split_lines_nonempty(search_output@);
    }
    assert(rows@.map_values(|row: &str| row@)[0] == rows@[0]@);
    let first = rows[0];
    if first.unicode_len() == 0 {
        None
    } else {
        Some(first.to_owned())
    }
}

} // verus!
