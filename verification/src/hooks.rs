use vstd::prelude::*;

use crate::maps::{heap_name, is_heap_name, is_stack_name, stack_name, PageInfo, PageView};
use crate::text::{chars_of, utf8_text};

verus! {

/// The mathematical value of an optional page.
pub open spec fn page_view(info: Option<PageInfo>) -> Option<PageView> {
    match info {
        Some(p) => Some(p@),
        None => None,
    }
}

/// The mathematical value of an optional file name.
pub open spec fn file_view(file: Option<String>) -> Option<Seq<char>> {
    match file {
        Some(f) => Some(f@),
        None => None,
    }
}

/// Whether `file` is the stack.
pub fn names_stack(file: &Option<String>) -> (r: bool)
    ensures
        r == (file_view(*file) == Some(stack_name())),
{
    match file {
        Some(f) => {
            let cs = chars_of(f.as_str());
            assert(cs@.subrange(0, cs.len() as int) =~= cs@);
            is_stack_name(&cs, 0, cs.len())
        },
        None => false,
    }
}

/// Whether `file` is the heap.
pub fn names_heap(file: &Option<String>) -> (r: bool)
    ensures
        r == (file_view(*file) == Some(heap_name())),
{
    match file {
        Some(f) => {
            let cs = chars_of(f.as_str());
            assert(cs@.subrange(0, cs.len() as int) =~= cs@);
            is_heap_name(&cs, 0, cs.len())
        },
        None => false,
    }
}

/// Whether a page lies in the stack or the heap, where a program keeps
/// the data that it builds at run time.
pub open spec fn in_stack_or_heap(p: PageView) -> bool {
    p.file == Some(stack_name()) || p.file == Some(heap_name())
}

// ----------------------------------------------------------------------
// Format strings
// ----------------------------------------------------------------------

/// How a call of the `printf` family goes on to the C library.
#[derive(Clone, Copy, Debug, PartialEq, Eq, Structural)]
pub enum FormatPlan {
    /// The format string is handed on as the format.
    Forward,
    /// The format string is first screened for `%n` with
    /// [`check_write_directive`], and handed on as the format if it passes.
    Screen,
    /// The format string is printed as data, as the argument of `"%s"`.
    AsArgument,
}

/// Why a call of the `printf` family is refused.
#[derive(Clone, Copy, Debug, PartialEq, Eq, Structural)]
pub enum FormatRejection {
    /// The format string lies in no mapping.
    UnknownPointer,
    /// The format string lies in memory that cannot be read or that can be
    /// executed.
    Permissions,
    /// The format string is not UTF-8.
    NotUtf8,
    /// The format string holds a `%n` directive.
    WriteDirective,
}

impl FormatRejection {
    /// The text that the refusal is reported with.
    pub fn message(&self) -> (m: &'static str)
        ensures
            *self == FormatRejection::UnknownPointer ==> m@ == "invalid format string pointer"@,
            *self == FormatRejection::Permissions ==> m@ == "invalid format string permissions"@,
            *self == FormatRejection::NotUtf8 ==> m@ == "invalid format string"@,
            *self == FormatRejection::WriteDirective ==> m@
                == "dangerous format string prohibited"@,
    {
        match self {
            FormatRejection::UnknownPointer => "invalid format string pointer",
            FormatRejection::Permissions => "invalid format string permissions",
            FormatRejection::NotUtf8 => "invalid format string",
            FormatRejection::WriteDirective => "dangerous format string prohibited",
        }
    }
}

/// Whether `b` can stand inside a conversion specification of `printf`,
/// between its `%` and its conversion character: an argument position
/// (`1$`), a flag (`-`, `+`, space, `#`, `0`, `'`, `I`), a width or a
/// precision (digits, `.`, `*`, `*2$`), or a length modifier (`hh`, `h`,
/// `l`, `ll`, `L`, `q`, `j`, `z`, `Z`, `t`).
pub open spec fn is_spec_part(b: u8) -> bool {
    // digits
    ||| 0x30u8 <= b <= 0x39u8
    // `$`, `*`, `.`
    ||| b == 0x24u8 || b == 0x2au8 || b == 0x2eu8
    // `-`, `+`, space, `#`, `'`, `I`
    ||| b == 0x2du8 || b == 0x2bu8 || b == 0x20u8 || b == 0x23u8 || b == 0x27u8 || b == 0x49u8
    // `h`, `l`, `L`, `q`, `j`, `z`, `Z`, `t`
    ||| b == 0x68u8 || b == 0x6cu8 || b == 0x4cu8 || b == 0x71u8 || b == 0x6au8 || b == 0x7au8
        || b == 0x5au8 || b == 0x74u8
}

/// The position of the first byte from `k` on that cannot stand inside a
/// conversion specification: the position of the conversion character of
/// a specification whose `%` is at `k - 1`, or `s.len()`.
pub open spec fn skip_spec_parts(s: Seq<u8>, k: int) -> int
    decreases s.len() - k,
{
    if 0 <= k < s.len() && is_spec_part(s[k]) {
        skip_spec_parts(s, k + 1)
    } else {
        k
    }
}

pub proof fn lemma_skip_spec_parts(s: Seq<u8>, k: int)
    ensures
        k <= skip_spec_parts(s, k),
    decreases s.len() - k,
{
    if 0 <= k < s.len() && is_spec_part(s[k]) {
        lemma_skip_spec_parts(s, k + 1);
    }
}

/// Whether the format string `s`, read from position `i` on, holds a
/// conversion specification whose conversion is `n`.  `%%` is an escaped
/// percent sign, not a conversion: it is passed over whole.
pub open spec fn write_directive_from(s: Seq<u8>, i: int) -> bool
    decreases s.len() - i,
{
    if i < 0 || i >= s.len() {
        false
    } else if s[i] != 0x25u8 {  // `%`
        write_directive_from(s, i + 1)
    } else {
        let j = skip_spec_parts(s, i + 1);
        if j >= s.len() {
            false
        } else if s[j] == 0x6eu8 {  // `n`
            true
        } else {
            proof {
                lemma_skip_spec_parts(s, i + 1);
            }
            write_directive_from(s, j + 1)
        }
    }
}

/// Whether the format string holds a `%n` conversion in any form (`%n`,
/// `%hhn`, `%ln`, `%1$n`, `%-5n`, ...).
pub open spec fn has_write_directive(format: Seq<u8>) -> bool {
    write_directive_from(format, 0)
}

proof fn lemma_skip_spec_parts_shift(s: Seq<u8>, i: int, k: int)
    requires
        0 <= i <= k,
        i <= s.len(),
    ensures
        skip_spec_parts(s, k) == i + skip_spec_parts(s.skip(i), k - i),
    decreases s.len() - k,
{
    if 0 <= k < s.len() && is_spec_part(s[k]) {
        lemma_skip_spec_parts_shift(s, i, k + 1);
        assert(s.skip(i)[k - i] == s[k]);
    } else if k < s.len() {
        assert(s.skip(i)[k - i] == s[k]);
    }
}

proof fn lemma_write_directive_shift(s: Seq<u8>, i: int, k: int)
    requires
        0 <= i <= k,
        i <= s.len(),
    ensures
        write_directive_from(s, k) == write_directive_from(s.skip(i), k - i),
    decreases s.len() - k,
{
    let t = s.skip(i);
    if k < s.len() {
        assert(t[k - i] == s[k]);
        if s[k] != 0x25u8 {
            lemma_write_directive_shift(s, i, k + 1);
        } else {
            lemma_skip_spec_parts_shift(s, i, k + 1);
            lemma_skip_spec_parts(s, k + 1);
            let j = skip_spec_parts(s, k + 1);
            if j < s.len() {
                assert(t[j - i] == s[j]);
                if s[j] != 0x6eu8 {
                    lemma_write_directive_shift(s, i, j + 1);
                }
            }
        }
    }
}

/// Bytes other than `%` are passed over: they never start a `%n`.
pub proof fn law_plain_byte_passed_over(b: u8, rest: Seq<u8>)
    requires
        b != 0x25u8,
    ensures
        has_write_directive(seq![b] + rest) == has_write_directive(rest),
{
    let s = seq![b] + rest;
    assert(s[0] == b);
    lemma_write_directive_shift(s, 1, 1);
    assert(s.skip(1) =~= rest);
}

/// A `%n` at the start of what is left to read is a write directive,
/// whatever follows.
pub proof fn law_percent_n_refused(rest: Seq<u8>)
    ensures
        has_write_directive(seq![0x25u8, 0x6eu8] + rest),
{
    let s = seq![0x25u8, 0x6eu8] + rest;
    assert(s[0] == 0x25u8 && s[1] == 0x6eu8);
    assert(skip_spec_parts(s, 1) == 1);
}

/// A complete conversion of two characters other than `%n` (`%d`, `%s`,
/// `%%`, ...) is passed over whole, so that what follows it is read from
/// its start: in `%d%n`, `%s%n` or `%%%n` the `%n` is found, while in `%%n`
/// the `n` is plain text.
pub proof fn law_conversion_passed_over(c: u8, rest: Seq<u8>)
    requires
        c != 0x6eu8,
        !is_spec_part(c),
    ensures
        has_write_directive(seq![0x25u8, c] + rest) == has_write_directive(rest),
{
    let s = seq![0x25u8, c] + rest;
    assert(s[0] == 0x25u8 && s[1] == c);
    assert(skip_spec_parts(s, 1) == 1);
    lemma_write_directive_shift(s, 2, 2);
    assert(s.skip(2) =~= rest);
}

/// Flags, widths, precisions, argument positions and length modifiers
/// between a `%` and its conversion character change nothing: `%1$hhn`,
/// `%ln` or `%-5n` are write directives as `%n` is.
pub proof fn law_spec_parts_passed_over(p: u8, rest: Seq<u8>)
    requires
        is_spec_part(p),
    ensures
        has_write_directive(seq![0x25u8, p] + rest) == has_write_directive(seq![0x25u8] + rest),
{
    let s = seq![0x25u8, p] + rest;
    let t = seq![0x25u8] + rest;
    assert(s[0] == 0x25u8 && s[1] == p && t[0] == 0x25u8);
    lemma_skip_spec_parts_shift(s, 2, 2);
    lemma_skip_spec_parts_shift(t, 1, 1);
    assert(s.skip(2) =~= rest);
    assert(t.skip(1) =~= rest);
    let k = skip_spec_parts(rest, 0);
    lemma_skip_spec_parts(rest, 0);
    let js = skip_spec_parts(s, 1);
    let jt = skip_spec_parts(t, 1);
    assert(js == skip_spec_parts(s, 2));
    assert(js == k + 2 && jt == k + 1);
    if js < s.len() {
        assert(s[js] == rest[k] && t[jt] == rest[k]);
        lemma_write_directive_shift(s, js + 1, js + 1);
        lemma_write_directive_shift(t, jt + 1, jt + 1);
        assert(s.skip(js + 1) =~= t.skip(jt + 1));
    }
}

/// A `%` at the very end starts no write directive.
pub proof fn law_trailing_percent_harmless()
    ensures
        !has_write_directive(seq![0x25u8]),
{
    assert(skip_spec_parts(seq![0x25u8], 1) == 1);
}

/// With the filter on, a UTF-8 format string that holds a write directive
/// is refused as one, and one that holds none passes.
pub proof fn law_screen_refuses_write_directives(format: Seq<u8>)
    requires
        vstd::utf8::valid_utf8(format),
    ensures
        has_write_directive(format) ==> write_directive_check(format) == Err::<(), FormatRejection>(
            FormatRejection::WriteDirective,
        ),
        !has_write_directive(format) ==> write_directive_check(format) is Ok,
{
}

fn spec_part(b: u8) -> (r: bool)
    ensures
        r == is_spec_part(b),
{
    (0x30u8 <= b && b <= 0x39u8) || b == 0x24u8 || b == 0x2au8 || b == 0x2eu8 || b == 0x2du8 || b == 0x2bu8 || b
        == 0x20u8 || b == 0x23u8 || b == 0x27u8 || b == 0x49u8 || b == 0x68u8 || b == 0x6cu8 || b == 0x4cu8 || b
        == 0x71u8 || b == 0x6au8 || b == 0x7au8 || b == 0x5au8 || b == 0x74u8
}

/// Whether `format` holds a `%n` conversion, as [`has_write_directive`]
/// says.
pub fn holds_write_directive(format: &[u8]) -> (r: bool)
    ensures
        r == has_write_directive(format@),
{
    let n = format.len();
    let mut i: usize = 0;
    while i < n
        invariant
            n == format@.len(),
            i <= n,
            has_write_directive(format@) == write_directive_from(format@, i as int),
        decreases n - i,
    {
        if format[i] != 0x25u8 {
            i = i + 1;
        } else {
            let mut j = i + 1;
            while j < n && spec_part(format[j])
                invariant
                    n == format@.len(),
                    i + 1 <= j <= n,
                    skip_spec_parts(format@, i + 1) == skip_spec_parts(format@, j as int),
                decreases n - j,
            {
                j = j + 1;
            }
            if j >= n {
                return false;
            }
            if format[j] == 0x6eu8 {
                return true;
            }
            i = j + 1;
        }
    }
    false
}

/// The check of a format string that the `%n` filter makes.
pub open spec fn write_directive_check(format: Seq<u8>) -> Result<(), FormatRejection> {
    if !vstd::utf8::valid_utf8(format) {
        Err(FormatRejection::NotUtf8)
    } else if has_write_directive(format) {
        Err(FormatRejection::WriteDirective)
    } else {
        Ok(())
    }
}

/// Makes the check of [`write_directive_check`].
pub fn check_write_directive(format: &[u8]) -> (r: Result<(), FormatRejection>)
    ensures
        r == write_directive_check(format@),
{
    match utf8_text(format) {
        None => Err(FormatRejection::NotUtf8),
        Some(_) => if holds_write_directive(format) {
            Err(FormatRejection::WriteDirective)
        } else {
            Ok(())
        },
    }
}

/// What `vfprintf` (and `vprintf`, `fprintf`, `printf`, which hand their
/// calls to it) does with a format string that lies in page `info`:
/// refuse it when it cannot be read or can be executed; print it as data
/// when it lies in the stack, the heap or writable memory; otherwise
/// screen it for `%n` when the filter is on, and hand it on as the format
/// when it is off.
pub open spec fn vfprintf_plan_of(info: Option<PageView>, n_filter: bool) -> Result<
    FormatPlan,
    FormatRejection,
> {
    match info {
        None => Err(FormatRejection::UnknownPointer),
        Some(p) => if p.execute || !p.read {
            Err(FormatRejection::Permissions)
        } else if in_stack_or_heap(p) || p.write {
            Ok(FormatPlan::AsArgument)
        } else if n_filter {
            Ok(FormatPlan::Screen)
        } else {
            Ok(FormatPlan::Forward)
        },
    }
}

/// What the register-level `printf` hook does with a format string that
/// lies in page `info`: print it as data when it lies in the stack or the
/// heap, cannot be read, can be written or can be executed; otherwise
/// screen it for `%n` when the filter is on, and hand it on as the format
/// when it is off.
pub open spec fn printf_plan_of(info: Option<PageView>, n_filter: bool) -> Result<
    FormatPlan,
    FormatRejection,
> {
    match info {
        None => Err(FormatRejection::UnknownPointer),
        Some(p) => if in_stack_or_heap(p) || !p.read || p.write || p.execute {
            Ok(FormatPlan::AsArgument)
        } else if n_filter {
            Ok(FormatPlan::Screen)
        } else {
            Ok(FormatPlan::Forward)
        },
    }
}

fn in_stack_or_heap_exec(p: &PageInfo) -> (r: bool)
    ensures
        r == in_stack_or_heap(p@),
{
    names_stack(&p.file) || names_heap(&p.file)
}

/// Decides what `vfprintf` does with a format string that lies in page
/// `info`, as [`vfprintf_plan_of`] says.
pub fn vfprintf_plan(info: &Option<PageInfo>, n_filter: bool) -> (r: Result<
    FormatPlan,
    FormatRejection,
>)
    ensures
        r == vfprintf_plan_of(page_view(*info), n_filter),
{
    match info {
        None => Err(FormatRejection::UnknownPointer),
        Some(p) => {
            if p.execute || !p.read {
                Err(FormatRejection::Permissions)
            } else if in_stack_or_heap_exec(p) || p.write {
                Ok(FormatPlan::AsArgument)
            } else if n_filter {
                Ok(FormatPlan::Screen)
            } else {
                Ok(FormatPlan::Forward)
            }
        },
    }
}

/// Decides what the register-level `printf` hook does with a format
/// string that lies in page `info`, as [`printf_plan_of`] says.
pub fn printf_plan(info: &Option<PageInfo>, n_filter: bool) -> (r: Result<
    FormatPlan,
    FormatRejection,
>)
    ensures
        r == printf_plan_of(page_view(*info), n_filter),
{
    match info {
        None => Err(FormatRejection::UnknownPointer),
        Some(p) => {
            if in_stack_or_heap_exec(p) || !p.read || p.write || p.execute {
                Ok(FormatPlan::AsArgument)
            } else if n_filter {
                Ok(FormatPlan::Screen)
            } else {
                Ok(FormatPlan::Forward)
            }
        },
    }
}

/// What becomes of a format string of bytes `format` once the plan is
/// known: printed as data (`true`), used as the format (`false`), or
/// refused by the screen for `%n`.
pub open spec fn plan_outcome(plan: FormatPlan, format: Seq<u8>) -> Result<bool, FormatRejection> {
    match plan {
        FormatPlan::AsArgument => Ok(true),
        FormatPlan::Forward => Ok(false),
        FormatPlan::Screen => match write_directive_check(format) {
            Ok(()) => Ok(false),
            Err(e) => Err(e),
        },
    }
}

/// Carries out `plan` on the format string of bytes `format`, as
/// [`plan_outcome`] says; the bytes are looked at only for
/// [`FormatPlan::Screen`].
pub fn format_as_data(plan: FormatPlan, format: &[u8]) -> (r: Result<bool, FormatRejection>)
    ensures
        r == plan_outcome(plan, format@),
{
    match plan {
        FormatPlan::AsArgument => Ok(true),
        FormatPlan::Forward => Ok(false),
        FormatPlan::Screen => match check_write_directive(format) {
            Ok(()) => Ok(false),
            Err(e) => Err(e),
        },
    }
}

/// Whether a format string of bytes `format` ends up handed on as the
/// format under `plan`: directly, or after passing the screen for `%n`.
pub open spec fn used_as_format(plan: Result<FormatPlan, FormatRejection>, format: Seq<u8>) -> bool {
    match plan {
        Ok(p) => plan_outcome(p, format) == Ok::<bool, FormatRejection>(false),
        Err(_) => false,
    }
}

/// Whether a file name is `[stack]` or `[heap]`.
pub open spec fn names_stack_or_heap_literally(file: Option<Seq<char>>) -> bool {
    file == Some(seq!['[', 's', 't', 'a', 'c', 'k', ']']) || file == Some(
        seq!['[', 'h', 'e', 'a', 'p', ']'],
    )
}

/// What `vfprintf` does, page by page: a format string in no mapping, or
/// in a page that cannot be read or can be executed, is refused; one in
/// the stack, the heap or a writable page is printed as data; any other is
/// used as the format, after the `%n` screen when the filter is on.
pub proof fn law_vfprintf_plan_by_page(info: Option<PageView>, n_filter: bool)
    ensures
        info is None ==> vfprintf_plan_of(info, n_filter) == Err::<FormatPlan, FormatRejection>(
            FormatRejection::UnknownPointer,
        ),
        info matches Some(p) && (p.execute || !p.read) ==> vfprintf_plan_of(info, n_filter)
            == Err::<FormatPlan, FormatRejection>(FormatRejection::Permissions),
        info matches Some(p) && p.read && !p.execute && (p.write || names_stack_or_heap_literally(
            p.file,
        )) ==> vfprintf_plan_of(info, n_filter) == Ok::<FormatPlan, FormatRejection>(
            FormatPlan::AsArgument,
        ),
        info matches Some(p) && p.read && !p.execute && !p.write && !names_stack_or_heap_literally(
            p.file,
        ) ==> vfprintf_plan_of(info, n_filter) == Ok::<FormatPlan, FormatRejection>(
            if n_filter {
                FormatPlan::Screen
            } else {
                FormatPlan::Forward
            },
        ),
{
    assert(stack_name() =~= seq!['[', 's', 't', 'a', 'c', 'k', ']']);
    assert(heap_name() =~= seq!['[', 'h', 'e', 'a', 'p', ']']);
}

/// What the register-level `printf` does, page by page: a format string in
/// no mapping is refused; one in the stack, the heap, or a page that
/// cannot be read, can be written or can be executed is printed as data;
/// any other is used as the format, after the `%n` screen when the filter
/// is on.
pub proof fn law_printf_plan_by_page(info: Option<PageView>, n_filter: bool)
    ensures
        info is None ==> printf_plan_of(info, n_filter) == Err::<FormatPlan, FormatRejection>(
            FormatRejection::UnknownPointer,
        ),
        info matches Some(p) && (!p.read || p.write || p.execute || names_stack_or_heap_literally(
            p.file,
        )) ==> printf_plan_of(info, n_filter) == Ok::<FormatPlan, FormatRejection>(
            FormatPlan::AsArgument,
        ),
        info matches Some(p) && p.read && !p.execute && !p.write && !names_stack_or_heap_literally(
            p.file,
        ) ==> printf_plan_of(info, n_filter) == Ok::<FormatPlan, FormatRejection>(
            if n_filter {
                FormatPlan::Screen
            } else {
                FormatPlan::Forward
            },
        ),
{
    assert(stack_name() =~= seq!['[', 's', 't', 'a', 'c', 'k', ']']);
    assert(heap_name() =~= seq!['[', 'h', 'e', 'a', 'p', ']']);
}

/// A format string is used as a format only when it lies in readable
/// memory that can be neither written nor executed and is not the stack or
/// the heap; so a format string that a program builds at run time is
/// always printed as data.  With the `%n` filter on, no format string that
/// holds `%n`, or is not UTF-8, is used as a format.
pub proof fn law_only_constant_formats_used(info: Option<PageView>, format: Seq<u8>, n_filter: bool)
    ensures
        used_as_format(vfprintf_plan_of(info, n_filter), format) ==> {
            &&& info matches Some(p)
            &&& p.read && !p.write && !p.execute && !in_stack_or_heap(p)
            &&& n_filter ==> !has_write_directive(format) && vstd::utf8::valid_utf8(format)
        },
        used_as_format(printf_plan_of(info, n_filter), format) ==> {
            &&& info matches Some(p)
            &&& p.read && !p.write && !p.execute && !in_stack_or_heap(p)
            &&& n_filter ==> !has_write_directive(format) && vstd::utf8::valid_utf8(format)
        },
{
}

// ----------------------------------------------------------------------
// free
// ----------------------------------------------------------------------

/// What a call of `free` does.
#[derive(Clone, Copy, Debug, PartialEq, Eq, Structural)]
pub enum FreeStep {
    /// Nothing: the pointer is null, or the call comes from inside a call
    /// of `free` on the same thread.
    Skip,
    /// The memory goes back to the C library's `free`.
    ReleaseToLibc,
    /// The memory is kept; its page is checked.
    Inspect,
}

/// The step that `free(ptr)` takes, and whether a call of `free` is in
/// progress on the thread afterwards, given whether one was (`busy`) and
/// whether `__libc_start_main` has run.
pub open spec fn free_step(busy: bool, ptr: usize, main_started: bool) -> (bool, FreeStep) {
    if ptr == 0 || busy {
        (busy, FreeStep::Skip)
    } else if main_started {
        (true, FreeStep::Inspect)
    } else {
        (true, FreeStep::ReleaseToLibc)
    }
}

/// Keeps a thread from entering `free` again while it is in `free`.
pub struct FreeGuard {
    /// Whether a call of `free` is in progress on this thread.
    pub busy: bool,
}

impl FreeGuard {
    /// A guard with no call in progress.
    pub fn new() -> (g: FreeGuard)
        ensures
            !g.busy,
    {
        FreeGuard { busy: false }
    }

    /// Begins a call `free(ptr)`, as [`free_step`] says.
    pub fn enter(&mut self, ptr: usize, main_started: bool) -> (s: FreeStep)
        ensures
            (final(self).busy, s) == free_step(old(self).busy, ptr, main_started),
            s != FreeStep::Skip ==> final(self).busy,
            s == FreeStep::Skip <==> (ptr == 0 || old(self).busy),
            s == FreeStep::Skip ==> final(self).busy == old(self).busy,
    {
        if ptr == 0 || self.busy {
            FreeStep::Skip
        } else {
            self.busy = true;
            if main_started {
                FreeStep::Inspect
            } else {
                FreeStep::ReleaseToLibc
            }
        }
    }

    /// Ends a call of `free` that [`FreeGuard::enter`] began.
    pub fn leave(&mut self)
        ensures
            !final(self).busy,
    {
        self.busy = false;
    }
}

/// Why `free` refuses a pointer once `__libc_start_main` has run.
#[derive(Clone, Copy, Debug, PartialEq, Eq, Structural)]
pub enum FreeRejection {
    /// The pointer lies in no mapping.
    UnknownPointer,
    /// The pointer's page is not readable and writable, or is executable.
    Permissions,
    /// The pointer lies in the stack.
    Stack,
}

impl FreeRejection {
    /// The text that the refusal is reported with.
    pub fn message(&self) -> (m: &'static str)
        ensures
            *self == FreeRejection::UnknownPointer ==> m@ == "freeing invalid pointer"@,
            *self == FreeRejection::Permissions ==> m@ == "freeing invalid permissions"@,
            *self == FreeRejection::Stack ==> m@ == "freeing in stack"@,
    {
        match self {
            FreeRejection::UnknownPointer => "freeing invalid pointer",
            FreeRejection::Permissions => "freeing invalid permissions",
            FreeRejection::Stack => "freeing in stack",
        }
    }
}

/// Whether a pointer in page `info` may be handed to `free`: its page must
/// exist, be readable and writable and not executable, and not be the
/// stack.
pub open spec fn free_target_check(info: Option<PageView>) -> Result<(), FreeRejection> {
    match info {
        None => Err(FreeRejection::UnknownPointer),
        Some(p) => if !(p.read && p.write && !p.execute) {
            Err(FreeRejection::Permissions)
        } else if p.file == Some(stack_name()) {
            Err(FreeRejection::Stack)
        } else {
            Ok(())
        },
    }
}

/// Checks the page of a pointer handed to `free`, as [`free_target_check`]
/// says.
pub fn check_free_target(info: &Option<PageInfo>) -> (r: Result<(), FreeRejection>)
    ensures
        r == free_target_check(page_view(*info)),
        r is Ok <==> (info matches Some(p) && p.read && p.write && !p.execute && file_view(p.file)
            != Some(seq!['[', 's', 't', 'a', 'c', 'k', ']'])),
{
    match info {
        None => Err(FreeRejection::UnknownPointer),
        Some(p) => if !(p.read && p.write && !p.execute) {
            Err(FreeRejection::Permissions)
        } else if names_stack(&p.file) {
            Err(FreeRejection::Stack)
        } else {
            Ok(())
        },
    }
}

/// Whenever `free` does not skip a call, the guard is held afterwards,
/// before `__libc_start_main` as after it; a skipped call (a null pointer,
/// or a call made inside `free`) changes nothing.
pub proof fn law_guard_held_while_free_runs(busy: bool, ptr: usize, main_started: bool)
    ensures
        free_step(busy, ptr, main_started).1 == FreeStep::Skip <==> (ptr == 0 || busy),
        free_step(busy, ptr, main_started).1 != FreeStep::Skip ==> free_step(
            busy,
            ptr,
            main_started,
        ).0,
        free_step(busy, ptr, main_started).1 == FreeStep::Skip ==> free_step(
            busy,
            ptr,
            main_started,
        ).0 == busy,
        ptr != 0 && !busy && main_started ==> free_step(busy, ptr, main_started) == (
            true,
            FreeStep::Inspect,
        ),
{
}

/// A pointer is accepted by `free` only when its page exists, is readable
/// and writable, is not executable, and is not the `[stack]` mapping; every
/// such page is accepted.
pub proof fn law_free_target_accepted_exactly(info: Option<PageView>)
    ensures
        free_target_check(info) is Ok <==> (info matches Some(p) && p.read && p.write && !p.execute
            && p.file != Some(seq!['[', 's', 't', 'a', 'c', 'k', ']'])),
        info matches Some(p) && p.read && !p.write ==> free_target_check(info) == Err::<
            (),
            FreeRejection,
        >(FreeRejection::Permissions),
{
    assert(stack_name() =~= seq!['[', 's', 't', 'a', 'c', 'k', ']']);
}

/// Once `__libc_start_main` has run, no memory goes back to the C library:
/// every call of `free` is skipped or keeps the memory.
pub proof fn law_no_release_after_main(busy: bool, ptr: usize)
    ensures
        free_step(busy, ptr, true).1 != FreeStep::ReleaseToLibc,
{
}

/// Before `__libc_start_main` has run, a call of `free` on a non-null
/// pointer that does not come from inside `free` releases the memory.
pub proof fn law_release_before_main(ptr: usize)
    requires
        ptr != 0,
    ensures
        free_step(false, ptr, false) == (true, FreeStep::ReleaseToLibc),
{
}

/// A call of `free` made while `free` runs on the same thread does nothing
/// and leaves the guard as it was.
pub proof fn law_reentrant_free_skipped(ptr: usize, main_started: bool)
    ensures
        free_step(true, ptr, main_started) == (true, FreeStep::Skip),
{
}

/// A null pointer is never freed, inspected or refused.
pub proof fn law_null_free_skipped(busy: bool, main_started: bool)
    ensures
        free_step(busy, 0, main_started) == (busy, FreeStep::Skip),
{
}

} // verus!
