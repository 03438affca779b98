use vstd::prelude::*;

verus! {

/// Display widths of characters, as the C library's `wcwidth` reports them
/// in the terminal's locale: -1 for a character that cannot be printed, and
/// 0, 1 or 2 columns otherwise.  The library is handed these numbers with
/// the text they measure, one per character.
pub open spec fn valid_widths(ws: Seq<i32>) -> bool {
    &&& ws.len() <= usize::MAX / 4
    &&& forall|i: int| 0 <= i < ws.len() ==> -1 <= #[trigger] ws[i] <= 2
}

/// Columns that a character takes when unprintable ones take none.
pub open spec fn visible(w: i32) -> nat {
    if w > 0 { w as nat } else { 0 }
}

/// Columns that a run of characters takes when unprintable ones take none.
pub open spec fn visible_width(ws: Seq<i32>) -> nat
    decreases ws.len(),
{
    if ws.len() == 0 {
        0
    } else {
        visible_width(ws.drop_last()) + visible(ws.last())
    }
}

/// Columns taken by the first `k` characters.
pub open spec fn prefix_width(ws: Seq<i32>, k: int) -> nat {
    visible_width(ws.take(k))
}

/// Every character of the run can be printed.
pub open spec fn printable(ws: Seq<i32>) -> bool {
    forall|i: int| 0 <= i < ws.len() ==> #[trigger] ws[i] >= 0
}

pub proof fn lemma_visible_width_push(ws: Seq<i32>, w: i32)
    ensures
        visible_width(ws.push(w)) == visible_width(ws) + visible(w),
{
    assert(ws.push(w).drop_last() =~= ws);
}

pub proof fn lemma_prefix_width_step(ws: Seq<i32>, k: int)
    requires
        0 <= k < ws.len(),
    ensures
        prefix_width(ws, k + 1) == prefix_width(ws, k) + visible(ws[k]),
{
    assert(ws.take(k + 1) =~= ws.take(k).push(ws[k]));
    lemma_visible_width_push(ws.take(k), ws[k]);
}

pub proof fn lemma_visible_width_bound(ws: Seq<i32>)
    requires
        forall|i: int| 0 <= i < ws.len() ==> -1 <= #[trigger] ws[i] <= 2,
    ensures
        visible_width(ws) <= 2 * ws.len(),
    decreases ws.len(),
{
    if ws.len() > 0 {
        assert forall|i: int| 0 <= i < ws.drop_last().len() implies -1 <= #[trigger] ws.drop_last()[i] <= 2 by {
            assert(ws.drop_last()[i] == ws[i]);
        }
        lemma_visible_width_bound(ws.drop_last());
    }
}

pub proof fn lemma_prefix_width_bound(ws: Seq<i32>, k: int)
    requires
        0 <= k <= ws.len(),
        valid_widths(ws),
    ensures
        prefix_width(ws, k) <= 2 * k,
{
    assert forall|i: int| 0 <= i < ws.take(k).len() implies -1 <= #[trigger] ws.take(k)[i] <= 2 by {
        assert(ws.take(k)[i] == ws[i]);
    }
    lemma_visible_width_bound(ws.take(k));
}

pub proof fn lemma_prefix_width_mono(ws: Seq<i32>, a: int, b: int)
    requires
        0 <= a <= b <= ws.len(),
    ensures
        prefix_width(ws, a) <= prefix_width(ws, b),
    decreases b - a,
{
    if a < b {
        lemma_prefix_width_mono(ws, a, b - 1);
        lemma_prefix_width_step(ws, b - 1);
    }
}

/// Total width of a run, or `None` where a character cannot be printed.
pub fn wcswidth(widths: &[i32]) -> (r: Option<usize>)
    requires
        valid_widths(widths@),
    ensures
        r == (if printable(widths@) { Some(visible_width(widths@) as usize) } else { None::<usize> }),
{
    let mut total: usize = 0;
    let mut i: usize = 0;
    while i < widths.len()
        invariant
            valid_widths(widths@),
            i <= widths@.len(),
            total == prefix_width(widths@, i as int),
            forall|j: int| 0 <= j < i ==> widths@[j] >= 0,
        decreases widths.len() - i,
    {
        proof {
            lemma_prefix_width_step(widths@, i as int);
            lemma_prefix_width_bound(widths@, i + 1);
        }
        let w = widths[i];
        if w < 0 {
            return None;
        }
        total += w as usize;
        i += 1;
    }
    assert(widths@.take(i as int) =~= widths@);
    Some(total)
}

/// Total width of a run; unprintable characters take no columns.
pub fn wcswidth_ignore_unprintable(widths: &[i32]) -> (r: usize)
    requires
        valid_widths(widths@),
    ensures
        r == visible_width(widths@),
{
    let mut total: usize = 0;
    let mut i: usize = 0;
    while i < widths.len()
        invariant
            valid_widths(widths@),
            i <= widths@.len(),
            total == prefix_width(widths@, i as int),
        decreases widths.len() - i,
    {
        proof {
            lemma_prefix_width_step(widths@, i as int);
            lemma_prefix_width_bound(widths@, i + 1);
        }
        let w = widths[i];
        if w > 0 {
            total += w as usize;
        }
        i += 1;
    }
    assert(widths@.take(i as int) =~= widths@);
    total
}

/// Width of one character, or `None` where it cannot be printed.
pub fn char_width(width: i32) -> (r: Option<usize>)
    requires
        -1 <= width <= 2,
    ensures
        r == (if width >= 0 { Some(width as usize) } else { None::<usize> }),
{
    if width < 0 { None } else { Some(width as usize) }
}

/// Width of one character; an unprintable one takes no columns.
pub fn char_width_ignore_unprintable(width: i32) -> (r: usize)
    requires
        -1 <= width <= 2,
    ensures
        r == visible(width),
{
    if width < 0 { 0 } else { width as usize }
}

/// First character position at or after `i` whose end lies beyond column
/// `limit`, or the length of the run.
pub open spec fn scan_start(ws: Seq<i32>, i: int, limit: nat) -> int
    decreases ws.len() - i,
{
    if i < 0 || i >= ws.len() {
        ws.len() as int
    } else if prefix_width(ws, i + 1) > limit {
        i
    } else {
        scan_start(ws, i + 1, limit)
    }
}

/// First character position at or after `j` that starts at or beyond
/// column `limit`, or the length of the run.
pub open spec fn scan_end(ws: Seq<i32>, j: int, limit: nat) -> int
    decreases ws.len() - j,
{
    if j < 0 || j >= ws.len() {
        ws.len() as int
    } else if prefix_width(ws, j) >= limit {
        j
    } else {
        scan_end(ws, j + 1, limit)
    }
}

/// Character range that `crop` keeps: from the character that reaches past
/// `start` columns (the first one where `start` is 0) up to the first
/// character that starts at or after `end` columns.
pub open spec fn crop_range(ws: Seq<i32>, start: nat, end: nat) -> (int, int) {
    if end <= start {
        (0, 0)
    } else if start == 0 {
        (0, scan_end(ws, 0, end))
    } else {
        let s = scan_start(ws, 0, start);
        if s >= ws.len() {
            (s, s)
        } else if prefix_width(ws, s + 1) >= end {
            (s, s)
        } else {
            (s, scan_end(ws, s + 1, end))
        }
    }
}

proof fn lemma_scan_start_bounds(ws: Seq<i32>, i: int, limit: nat)
    requires
        0 <= i,
    ensures
        i <= scan_start(ws, i, limit) || scan_start(ws, i, limit) == ws.len(),
        scan_start(ws, i, limit) <= ws.len(),
    decreases ws.len() - i,
{
    if i < ws.len() && prefix_width(ws, i + 1) <= limit {
        lemma_scan_start_bounds(ws, i + 1, limit);
    }
}

proof fn lemma_scan_end_bounds(ws: Seq<i32>, j: int, limit: nat)
    requires
        0 <= j,
    ensures
        j <= scan_end(ws, j, limit) || scan_end(ws, j, limit) == ws.len(),
        scan_end(ws, j, limit) <= ws.len(),
    decreases ws.len() - j,
{
    if j < ws.len() && prefix_width(ws, j) < limit {
        lemma_scan_end_bounds(ws, j + 1, limit);
    }
}

/// [`crop`] for column limits of 64 bits.
pub fn crop_columns<'a>(text: &'a str, widths: &[i32], start_width: u64, end_width: u64) -> (r: &'a str)
    requires
        widths@.len() == text@.len(),
        valid_widths(widths@),
    ensures
        r@ == text@.subrange(
            crop_range(widths@, start_width as nat, end_width as nat).0,
            crop_range(widths@, start_width as nat, end_width as nat).1,
        ),
{
    if end_width <= start_width {
        return text.substring_char(0, 0);
    }
    let n = widths.len();
    let mut start_index = n;
    let mut width: usize = 0;
    let mut i: usize = 0;
    if start_width != 0 {
        while i < n && start_index == n
            invariant
                n == widths@.len(),
                valid_widths(widths@),
                0 < start_width,
                i <= n,
                width == prefix_width(widths@, i as int),
                start_index == n ==> width <= start_width,
                start_index == n ==> scan_start(widths@, 0, start_width as nat) == scan_start(widths@, i as int, start_width as nat),
                start_index != n ==> start_index + 1 == i && start_index == scan_start(widths@, 0, start_width as nat),
            decreases n - i,
        {
            proof {
                lemma_prefix_width_step(widths@, i as int);
                lemma_prefix_width_bound(widths@, i + 1);
            }
            let w = widths[i];
            if w > 0 {
                width += w as usize;
            }
            i += 1;
            if width as u64 > start_width {
                start_index = i - 1;
            }
        }
        if start_index == n {
            return text.substring_char(n, n);
        }
    } else {
        start_index = 0;
    }
    proof {
        lemma_scan_start_bounds(widths@, 0, start_width as nat);
    }
    if width as u64 >= end_width {
        return text.substring_char(start_index, start_index);
    }
    let mut end_index = n;
    let mut found = false;
    while i < n && !found
        invariant
            n == widths@.len(),
            valid_widths(widths@),
            start_index <= i <= n,
            width == prefix_width(widths@, i as int),
            !found && i < n ==> width < end_width,
            start_index <= end_index <= n,
            !found ==> scan_end(widths@, i as int, end_width as nat) == crop_range(widths@, start_width as nat, end_width as nat).1,
            found ==> end_index == crop_range(widths@, start_width as nat, end_width as nat).1,
            start_index == crop_range(widths@, start_width as nat, end_width as nat).0,
            !found ==> end_index == n,
        decreases n - i,
    {
        proof {
            lemma_prefix_width_step(widths@, i as int);
            lemma_prefix_width_bound(widths@, i + 1);
        }
        let w = widths[i];
        if w > 0 {
            width += w as usize;
        }
        i += 1;
        if i < n && width as u64 >= end_width {
            end_index = i;
            found = true;
        }
    }
    proof {
        lemma_scan_end_bounds(widths@, 0, end_width as nat);
    }
    text.substring_char(start_index, end_index)
}

/// The part of `text` that lies between columns `start_width` and
/// `end_width`, given the widths of its characters.
pub fn crop<'a>(text: &'a str, widths: &[i32], start_width: usize, end_width: usize) -> (r: &'a str)
    requires
        widths@.len() == text@.len(),
        valid_widths(widths@),
    ensures
        r@ == text@.subrange(
            crop_range(widths@, start_width as nat, end_width as nat).0,
            crop_range(widths@, start_width as nat, end_width as nat).1,
        ),
{
    crop_columns(text, widths, start_width as u64, end_width as u64)
}

} // verus!
