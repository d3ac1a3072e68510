use vstd::prelude::*;
use zeroize::Zeroize;

use crate::text::{
    chars_of, find_char, first_index_of, lemma_first_index_of, lemma_lines_step, lines, parse_hex,
    parse_hex_usize, strip_cr, word_bounds, words,
};

verus! {

/// The permissions and the file of a memory mapping, as one row of
/// `/proc/self/maps` gives them.
pub struct PageInfo {
    /// Whether reading from the page is allowed.
    pub read: bool,
    /// Whether writing the page is allowed.
    pub write: bool,
    /// Whether executing instructions in the page is allowed.
    pub execute: bool,
    /// The file associated with the page.
    pub file: Option<String>,
}

/// The mathematical value of a [`PageInfo`].
pub struct PageView {
    pub read: bool,
    pub write: bool,
    pub execute: bool,
    pub file: Option<Seq<char>>,
}

impl View for PageInfo {
    type V = PageView;

    open spec fn view(&self) -> PageView {
        PageView {
            read: self.read,
            write: self.write,
            execute: self.execute,
            file: match self.file {
                Some(f) => Some(f@),
                None => None,
            },
        }
    }
}

/// Why the lookup of a pointer in the memory map failed.
#[derive(Clone, Copy, Debug, PartialEq, Eq, Structural)]
pub enum MapsError {
    /// A row that had to be read is not in the format of `/proc/self/maps`.
    Malformed,
    /// The pointer lies in the stack, below the current stack pointer.
    DanglingStackPointer,
}

impl MapsError {
    /// The text that the failure is reported with.
    pub fn message(&self) -> (m: &'static str)
        ensures
            *self == MapsError::Malformed ==> m@ == "failed to parse maps"@,
            *self == MapsError::DanglingStackPointer ==> m@ == "dangling stack pointer"@,
    {
        match self {
            MapsError::Malformed => "failed to parse maps",
            MapsError::DanglingStackPointer => "dangling stack pointer",
        }
    }
}

/// The name that the kernel gives the main thread's stack.
pub open spec fn stack_name() -> Seq<char> {
    seq!['[', 's', 't', 'a', 'c', 'k', ']']
}

/// The name that the kernel gives the heap.
pub open spec fn heap_name() -> Seq<char> {
    seq!['[', 'h', 'e', 'a', 'p', ']']
}

/// What one row of the memory map says of `ptr`: nothing when its range
/// does not hold `ptr`, the page's permissions and file when it does, or a
/// failure.  A row's first column is `lower-upper` in hexadecimal, the
/// range from `lower` included to `upper` excluded; its second the permissions (`r`, `w`, `x` in the
/// first three places), and its sixth, if present, the file.
pub open spec fn row_outcome(row: Seq<char>, ptr: usize, rsp: usize) -> Result<
    Option<PageView>,
    MapsError,
> {
    let cols = words(row);
    if cols.len() == 0 {
        Err(MapsError::Malformed)
    } else {
        let bounds = cols[0];
        let dash = first_index_of(bounds, '-');
        if dash >= bounds.len() {
            Err(MapsError::Malformed)
        } else {
            match (parse_hex_usize(bounds.take(dash as int)), parse_hex_usize(bounds.skip(dash + 1 as int))) {
                (Some(lower), Some(upper)) => {
                    if lower <= ptr && ptr < upper {
                        if cols.len() < 5 || cols[1].len() < 3 {
                            Err(MapsError::Malformed)
                        } else {
                            let file = if cols.len() >= 6 {
                                Some(cols[5])
                            } else {
                                None
                            };
                            if file == Some(stack_name()) && rsp > ptr {
                                Err(MapsError::DanglingStackPointer)
                            } else {
                                Ok(
                                    Some(
                                        PageView {
                                            read: cols[1][0] == 'r',
                                            write: cols[1][1] == 'w',
                                            execute: cols[1][2] == 'x',
                                            file,
                                        },
                                    ),
                                )
                            }
                        }
                    } else {
                        Ok(None)
                    }
                },
                _ => Err(MapsError::Malformed),
            }
        }
    }
}

/// The rows read in order: the first failure stops the reading, and the
/// last row that holds `ptr` gives the answer.
pub open spec fn rows_outcome(rows: Seq<Seq<char>>, ptr: usize, rsp: usize) -> Result<
    Option<PageView>,
    MapsError,
>
    decreases rows.len(),
{
    if rows.len() == 0 {
        Ok(None)
    } else {
        match rows_outcome(rows.drop_last(), ptr, rsp) {
            Err(e) => Err(e),
            Ok(prev) => match row_outcome(rows.last(), ptr, rsp) {
                Err(e) => Err(e),
                Ok(Some(p)) => Ok(Some(p)),
                Ok(None) => Ok(prev),
            },
        }
    }
}

/// What the text of `/proc/self/maps` says of `ptr`.
pub open spec fn maps_outcome(contents: Seq<char>, ptr: usize, rsp: usize) -> Result<
    Option<PageView>,
    MapsError,
> {
    rows_outcome(lines(contents), ptr, rsp)
}

/// The mathematical value of a lookup's result.
pub open spec fn outcome_view(r: Result<Option<PageInfo>, MapsError>) -> Result<
    Option<PageView>,
    MapsError,
> {
    match r {
        Ok(Some(p)) => Ok(Some(p@)),
        Ok(None) => Ok(None),
        Err(e) => Err(e),
    }
}

/// Clears a string through `zeroize`, which overwrites its bytes before it
/// empties it.
///
/// Trusted: `<String as zeroize::Zeroize>::zeroize`.  The contract states
/// that the string is empty afterwards; that the old bytes were
/// overwritten in memory is not stated.
#[verifier::external_body]
fn zeroize_string(s: &mut String)
    ensures
        final(s)@ == Seq::<char>::empty(),
{
    s.zeroize();
}

/// Appends a character to a string.
///
/// Trusted: `String::push`.
#[verifier::external_body]
fn push_char(s: &mut String, c: char)
    ensures
        final(s)@ == old(s)@.push(c),
{
    s.push(c);
}

/// A string made of `chars[start..end]`.
pub fn string_of(chars: &Vec<char>, start: usize, end: usize) -> (s: String)
    requires
        start <= end <= chars.len(),
    ensures
        s@ == chars@.subrange(start as int, end as int),
{
    let mut s = String::new();
    let mut i = start;
    while i < end
        invariant
            start <= i <= end <= chars.len(),
            s@ == chars@.subrange(start as int, i as int),
        decreases end - i,
    {
        push_char(&mut s, chars[i]);
        assert(s@ =~= chars@.subrange(start as int, i + 1));
        i = i + 1;
    }
    s
}

/// Whether `chars[start..end]` is `name`.
pub fn chars_match(chars: &Vec<char>, start: usize, end: usize, name: &[char]) -> (r: bool)
    requires
        start <= end <= chars.len(),
    ensures
        r == (chars@.subrange(start as int, end as int) == name@),
{
    if end - start != name.len() {
        return false;
    }
    let mut k: usize = 0;
    while k < name.len()
        invariant
            start <= end <= chars.len(),
            end - start == name.len(),
            k <= name.len(),
            forall|i: int| 0 <= i < k ==> chars@[start + i] == name@[i],
        decreases name.len() - k,
    {
        if chars[start + k] != name[k] {
            proof {
                let t = chars@.subrange(start as int, end as int);
                assert(t[k as int] == chars@[start + k]);
            }
            return false;
        }
        k = k + 1;
    }
    assert(chars@.subrange(start as int, end as int) =~= name@);
    true
}

/// Whether `chars[start..end]` is the kernel's name for the stack.
pub fn is_stack_name(chars: &Vec<char>, start: usize, end: usize) -> (r: bool)
    requires
        start <= end <= chars.len(),
    ensures
        r == (chars@.subrange(start as int, end as int) == stack_name()),
{
    let name: [char; 7] = ['[', 's', 't', 'a', 'c', 'k', ']'];
    assert(name@ =~= stack_name());
    chars_match(chars, start, end, &name)
}

/// Whether `chars[start..end]` is the kernel's name for the heap.
pub fn is_heap_name(chars: &Vec<char>, start: usize, end: usize) -> (r: bool)
    requires
        start <= end <= chars.len(),
    ensures
        r == (chars@.subrange(start as int, end as int) == heap_name()),
{
    let name: [char; 6] = ['[', 'h', 'e', 'a', 'p', ']'];
    assert(name@ =~= heap_name());
    chars_match(chars, start, end, &name)
}

/// Reads one row, `chars[start..end]`, as [`row_outcome`] says.
fn inspect_row(chars: &Vec<char>, start: usize, end: usize, ptr: usize, rsp: usize) -> (r: Result<
    Option<PageInfo>,
    MapsError,
>)
    requires
        start <= end <= chars.len(),
    ensures
        outcome_view(r) == row_outcome(chars@.subrange(start as int, end as int), ptr, rsp),
{
    let ghost row = chars@.subrange(start as int, end as int);
    let ghost cols = words(row);
    let cols_at = word_bounds(chars, start, end);
    if cols_at.len() == 0 {
        return Err(MapsError::Malformed);
    }
    let (b0, b1) = cols_at[0];
    let dash = find_char(chars, b0, b1, '-');
    proof {
        lemma_first_index_of(chars@.subrange(b0 as int, b1 as int), '-');
    }
    if dash == b1 {
        return Err(MapsError::Malformed);
    }
    proof {
        let bounds = chars@.subrange(b0 as int, b1 as int);
        assert(bounds.take(dash - b0) =~= chars@.subrange(b0 as int, dash as int));
        assert(bounds.skip(dash - b0 + 1) =~= chars@.subrange(dash + 1, b1 as int));
    }
    let lower = parse_hex(chars, b0, dash);
    let upper = parse_hex(chars, dash + 1, b1);
    let (lower, upper) = match (lower, upper) {
        (Some(lower), Some(upper)) => (lower, upper),
        _ => {
            return Err(MapsError::Malformed);
        },
    };
    if !(lower <= ptr && ptr < upper) {
        return Ok(None);
    }
    if cols_at.len() < 5 {
        return Err(MapsError::Malformed);
    }
    let (p0, p1) = cols_at[1];
    if p1 - p0 < 3 {
        return Err(MapsError::Malformed);
    }
    proof {
        let perms = chars@.subrange(p0 as int, p1 as int);
        assert(perms[0] == chars@[p0 as int]);
        assert(perms[1] == chars@[p0 + 1]);
        assert(perms[2] == chars@[p0 + 2]);
    }
    let read = chars[p0] == 'r';
    let write = chars[p0 + 1] == 'w';
    let execute = chars[p0 + 2] == 'x';
    let file = if cols_at.len() >= 6 {
        let (f0, f1) = cols_at[5];
        if is_stack_name(chars, f0, f1) && rsp > ptr {
            return Err(MapsError::DanglingStackPointer);
        }
        Some(string_of(chars, f0, f1))
    } else {
        None
    };
    Ok(Some(PageInfo { read, write, execute, file }))
}

proof fn lemma_rows_outcome_push(rows: Seq<Seq<char>>, row: Seq<char>, ptr: usize, rsp: usize)
    ensures
        rows_outcome(rows.push(row), ptr, rsp) == match rows_outcome(rows, ptr, rsp) {
            Err(e) => Err(e),
            Ok(prev) => match row_outcome(row, ptr, rsp) {
                Err(e) => Err(e),
                Ok(Some(p)) => Ok(Some(p)),
                Ok(None) => Ok(prev),
            },
        },
{
    assert(rows.push(row).drop_last() =~= rows);
}

/// Once reading has failed, the rows after make no difference.
proof fn lemma_rows_outcome_failed(
    a: Seq<Seq<char>>,
    b: Seq<Seq<char>>,
    ptr: usize,
    rsp: usize,
)
    requires
        rows_outcome(a, ptr, rsp) is Err,
    ensures
        rows_outcome(a + b, ptr, rsp) == rows_outcome(a, ptr, rsp),
    decreases b.len(),
{
    if b.len() == 0 {
        assert(a + b =~= a);
    } else {
        lemma_rows_outcome_failed(a, b.drop_last(), ptr, rsp);
        assert((a + b).drop_last() =~= a + b.drop_last());
    }
}

proof fn lemma_rows_outcome_shape(rows: Seq<Seq<char>>, ptr: usize, rsp: usize)
    ensures
        rows_outcome(rows, ptr, rsp) is Ok ==> forall|j: int|
            0 <= j < rows.len() ==> #[trigger] row_outcome(rows[j], ptr, rsp) is Ok,
        rows_outcome(rows, ptr, rsp) == Ok::<Option<PageView>, MapsError>(None) ==> forall|j: int|
            0 <= j < rows.len() ==> #[trigger] row_outcome(rows[j], ptr, rsp) == Ok::<
                Option<PageView>,
                MapsError,
            >(None),
        rows_outcome(rows, ptr, rsp) matches Ok(Some(v)) ==> exists|i: int|
            0 <= i < rows.len() && #[trigger] row_outcome(rows[i], ptr, rsp) == Ok::<
                Option<PageView>,
                MapsError,
            >(Some(v)) && forall|j: int|
                i < j < rows.len() ==> #[trigger] row_outcome(rows[j], ptr, rsp) == Ok::<
                    Option<PageView>,
                    MapsError,
                >(None),
        rows_outcome(rows, ptr, rsp) matches Err(e) ==> exists|i: int|
            0 <= i < rows.len() && #[trigger] row_outcome(rows[i], ptr, rsp) == Err::<
                Option<PageView>,
                MapsError,
            >(e) && forall|j: int| 0 <= j < i ==> #[trigger] row_outcome(rows[j], ptr, rsp) is Ok,
    decreases rows.len(),
{
    if rows.len() > 0 {
        let init = rows.drop_last();
        let n = rows.len() - 1;
        lemma_rows_outcome_shape(init, ptr, rsp);
        assert forall|j: int| 0 <= j < n implies rows[j] == init[j] by {}
        match rows_outcome(init, ptr, rsp) {
            Err(e) => {
                let i = choose|i: int|
                    0 <= i < init.len() && #[trigger] row_outcome(init[i], ptr, rsp) == Err::<
                        Option<PageView>,
                        MapsError,
                    >(e) && forall|j: int|
                        0 <= j < i ==> #[trigger] row_outcome(init[j], ptr, rsp) is Ok;
                assert(row_outcome(rows[i], ptr, rsp) == Err::<Option<PageView>, MapsError>(e));
            },
            Ok(prev) => {
                assert(rows.last() == rows[n]);
                match row_outcome(rows.last(), ptr, rsp) {
                    Err(e) => {
                        assert(row_outcome(rows[n], ptr, rsp) == Err::<
                            Option<PageView>,
                            MapsError,
                        >(e));
                    },
                    Ok(Some(p)) => {
                        assert(row_outcome(rows[n], ptr, rsp) == Ok::<
                            Option<PageView>,
                            MapsError,
                        >(Some(p)));
                    },
                    Ok(None) => {
                        if let Some(v) = prev {
                            let i = choose|i: int|
                                0 <= i < init.len() && #[trigger] row_outcome(init[i], ptr, rsp)
                                    == Ok::<Option<PageView>, MapsError>(Some(v)) && forall|j: int|
                                    i < j < init.len() ==> #[trigger] row_outcome(
                                        init[j],
                                        ptr,
                                        rsp,
                                    ) == Ok::<Option<PageView>, MapsError>(None);
                            assert(row_outcome(rows[i], ptr, rsp) == Ok::<
                                Option<PageView>,
                                MapsError,
                            >(Some(v)));
                        }
                    },
                }
            },
        }
    }
}

/// The lookup reads the rows in order.  It answers with the page of the
/// last row that holds `ptr` (every later row holds it not), with nothing
/// when no row holds it, and fails with the failure of the first row that
/// fails (every earlier row is read without failure).
pub proof fn law_last_matching_row_answers(contents: Seq<char>, ptr: usize, rsp: usize)
    ensures
        ({
            let rows = lines(contents);
            &&& maps_outcome(contents, ptr, rsp) matches Ok(Some(v)) ==> exists|i: int|
                0 <= i < rows.len() && #[trigger] row_outcome(rows[i], ptr, rsp) == Ok::<
                    Option<PageView>,
                    MapsError,
                >(Some(v)) && forall|j: int|
                    i < j < rows.len() ==> #[trigger] row_outcome(rows[j], ptr, rsp) == Ok::<
                        Option<PageView>,
                        MapsError,
                    >(None)
            &&& maps_outcome(contents, ptr, rsp) == Ok::<Option<PageView>, MapsError>(None)
                ==> forall|j: int|
                0 <= j < rows.len() ==> #[trigger] row_outcome(rows[j], ptr, rsp) == Ok::<
                    Option<PageView>,
                    MapsError,
                >(None)
            &&& maps_outcome(contents, ptr, rsp) matches Err(e) ==> exists|i: int|
                0 <= i < rows.len() && #[trigger] row_outcome(rows[i], ptr, rsp) == Err::<
                    Option<PageView>,
                    MapsError,
                >(e) && forall|j: int| 0 <= j < i ==> #[trigger] row_outcome(rows[j], ptr, rsp) is Ok
        }),
{
    lemma_rows_outcome_shape(lines(contents), ptr, rsp);
}

/// A row answers only for a pointer that its range holds: from its lower
/// bound, included, to its upper bound, excluded.
pub proof fn law_answering_row_holds_ptr(row: Seq<char>, ptr: usize, rsp: usize)
    ensures
        row_outcome(row, ptr, rsp) matches Ok(Some(_)) ==> {
            let bounds = words(row)[0];
            let dash = first_index_of(bounds, '-');
            &&& parse_hex_usize(bounds.take(dash as int)) matches Some(lower)
            &&& parse_hex_usize(bounds.skip(dash + 1 as int)) matches Some(upper)
            &&& lower <= ptr < upper
        },
{
}

/// Whether the sixth column of a row is the text `[stack]`.
pub open spec fn sixth_column_is_stack(cols: Seq<Seq<char>>) -> bool {
    cols.len() >= 6 && cols[5] == seq!['[', 's', 't', 'a', 'c', 'k', ']']
}

/// A row that holds `ptr`, with at least five columns and a permission
/// column of at least three characters, answers with the page that it
/// describes: `r`, `w` and `x` in the first three places of the second
/// column give read, write and execute, and the sixth column, if any, is
/// the file.  The one exception is a pointer into the `[stack]` mapping
/// below the stack pointer `rsp`, which is refused as dangling.  Any other
/// mapping, with or without a file, answers whatever `rsp` is.
pub proof fn law_matching_row_answers_its_page(
    row: Seq<char>,
    ptr: usize,
    rsp: usize,
    lower: usize,
    upper: usize,
)
    requires
        words(row).len() >= 5,
        words(row)[1].len() >= 3,
        first_index_of(words(row)[0], '-') < words(row)[0].len(),
        parse_hex_usize(words(row)[0].take(first_index_of(words(row)[0], '-') as int)) == Some(
            lower,
        ),
        parse_hex_usize(words(row)[0].skip(first_index_of(words(row)[0], '-') + 1 as int))
            == Some(upper),
        lower <= ptr < upper,
    ensures
        sixth_column_is_stack(words(row)) && rsp > ptr ==> row_outcome(row, ptr, rsp) == Err::<
            Option<PageView>,
            MapsError,
        >(MapsError::DanglingStackPointer),
        !(sixth_column_is_stack(words(row)) && rsp > ptr) ==> (row_outcome(row, ptr, rsp)
            matches Ok(Some(page)) && page.read == (words(row)[1][0] == 'r') && page.write == (
        words(row)[1][1] == 'w') && page.execute == (words(row)[1][2] == 'x') && page.file == (
        if words(row).len() >= 6 {
            Some(words(row)[5])
        } else {
            None
        })),
{
    assert(stack_name() =~= seq!['[', 's', 't', 'a', 'c', 'k', ']']);
}

/// A row refuses a pointer as dangling only when the row is the `[stack]`
/// mapping and the pointer lies below the stack pointer.
pub proof fn law_dangling_only_below_stack_pointer(row: Seq<char>, ptr: usize, rsp: usize)
    ensures
        row_outcome(row, ptr, rsp) == Err::<Option<PageView>, MapsError>(
            MapsError::DanglingStackPointer,
        ) ==> sixth_column_is_stack(words(row)) && rsp > ptr,
{
    assert(stack_name() =~= seq!['[', 's', 't', 'a', 'c', 'k', ']']);
}

/// Looks `ptr` up in `maps`, the text of `/proc/self/maps`, for a thread
/// whose stack pointer is `rsp`.  The rows are read in order: the first
/// malformed row among those that must be read, or a pointer into the
/// stack below `rsp`, ends the lookup with an error; otherwise the last row
/// whose range holds `ptr` gives the answer, and `maps` is zeroized.
pub fn get_ptr_info(maps: &mut String, ptr: usize, rsp: usize) -> (r: Result<
    Option<PageInfo>,
    MapsError,
>)
    ensures
        outcome_view(r) == maps_outcome(old(maps)@, ptr, rsp),
        r is Ok ==> final(maps)@.len() == 0,
        r is Err ==> final(maps)@ == old(maps)@,
{
    let chars = chars_of(maps.as_str());
    let n = chars.len();
    let mut page_info: Option<PageInfo> = None;
    let mut pos: usize = 0;
    let ghost mut done: Seq<Seq<char>> = seq![];
    assert(chars@.subrange(0, n as int) =~= chars@);
    while pos < n
        invariant
            0 <= pos <= n == chars.len(),
            chars@ == old(maps)@,
            maps@ == old(maps)@,
            lines(chars@) == done + lines(chars@.subrange(pos as int, n as int)),
            rows_outcome(done, ptr, rsp) == outcome_view(Ok(page_info)),
        decreases n - pos,
    {
        let e = find_char(&chars, pos, n, '\n');
        let line_end = if e < n && e > pos && chars[e - 1] == '\r' {
            e - 1
        } else {
            e
        };
        let ghost row = chars@.subrange(pos as int, line_end as int);
        proof {
            lemma_lines_step(chars@, pos as int, e as int);
            if e < n {
                let t = chars@.subrange(pos as int, e as int);
                if line_end < e {
                    assert(t.drop_last() =~= row);
                } else {
                    assert(t == row);
                }
                assert(row == strip_cr(t));
            }
            lemma_rows_outcome_push(done, row, ptr, rsp);
        }
        match inspect_row(&chars, pos, line_end, ptr, rsp) {
            Err(err) => {
                proof {
                    let next = if e < n { e + 1 } else { n as int };
                    let rest = if e < n {
                        lines(chars@.subrange(e + 1, n as int))
                    } else {
                        seq![]
                    };
                    assert(lines(chars@) =~= done.push(row) + rest);
                    lemma_rows_outcome_failed(done.push(row), rest, ptr, rsp);
                }
                return Err(err);
            },
            Ok(Some(p)) => {
                page_info = Some(p);
            },
            Ok(None) => {},
        }
        proof {
            done = done.push(row);
        }
        if e < n {
            assert(lines(chars@) =~= done + lines(chars@.subrange(e + 1, n as int)));
            pos = e + 1;
        } else {
            assert(lines(chars@.subrange(n as int, n as int)) =~= seq![]);
            assert(lines(chars@) =~= done + lines(chars@.subrange(n as int, n as int)));
            pos = n;
        }
    }
    proof {
        assert(lines(chars@.subrange(n as int, n as int)) =~= seq![]);
        assert(lines(chars@) =~= done);
    }
    zeroize_string(maps);
    Ok(page_info)
}

} // verus!
