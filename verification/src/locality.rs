//! What a manifest reads to depends only on the bytes from where reading
//! stands: whatever comes before may be dropped, and blank space and comment
//! lines in front of a manifest change nothing.
use vstd::prelude::*;
use crate::grammar::{
    assignment_step, entries, entry_step, function_step, list_field, list_item, list_items,
    lemma_entry_progress, scan, script_body, str_field, DraftV, Step, HASH, LF, LPAREN,
};
use crate::reader::{is_ws, lemma_span, span, BytePred};
use crate::pkgbuild::parse_spec;

verus! {

/// `st` with its end position moved `q` bytes on.
pub open spec fn shift_step(st: Step, q: int) -> Step {
    match st {
        Step::Next(e, d) => Step::Next(e + q, d),
        other => other,
    }
}

/// A run of bytes reads the same after any prefix.
pub proof fn lemma_span_shift(p: Seq<u8>, s: Seq<u8>, i: int, pr: BytePred)
    requires
        0 <= i <= s.len(),
    ensures
        span(p + s, p.len() + i, pr) == p.len() + span(s, i, pr),
    decreases s.len() - i,
{
    let x = p + s;
    if i < s.len() {
        assert(x[p.len() + i] == s[i]);
        if pr.holds(s[i]) {
            lemma_span_shift(p, s, i + 1, pr);
        }
    }
}

proof fn lemma_subrange_shift(p: Seq<u8>, s: Seq<u8>, a: int, b: int)
    requires
        0 <= a <= b <= s.len(),
    ensures
        (p + s).subrange(p.len() + a, p.len() + b) == s.subrange(a, b),
{
    assert((p + s).subrange(p.len() + a, p.len() + b) =~= s.subrange(a, b));
}

/// A single-valued field reads the same whatever bytes precede it.
pub proof fn lemma_str_field_shift(p: Seq<u8>, s: Seq<u8>, i: int)
    requires
        0 <= i <= s.len(),
    ensures
        str_field(p + s, p.len() + i) == (p.len() + str_field(s, i).0, str_field(s, i).1),
{
    let x = p + s;
    let q = p.len() as int;
    lemma_span_shift(p, s, i, BytePred::InlineWhitespace);
    lemma_span(s, i, BytePred::InlineWhitespace);
    let j = span(s, i, BytePred::InlineWhitespace);
    if j < s.len() {
        assert(x[q + j] == s[j]);
    }
    if j < s.len() && (s[j] == 0x22u8 || s[j] == 0x27u8) {
        lemma_span_shift(p, s, j + 1, BytePred::Not(s[j]));
        lemma_span(s, j + 1, BytePred::Not(s[j]));
        lemma_subrange_shift(p, s, j + 1, span(s, j + 1, BytePred::Not(s[j])));
    } else if !(j < s.len() && s[j] == LF) {
        lemma_span_shift(p, s, j, BytePred::Not(LF));
        lemma_span(s, j, BytePred::Not(LF));
        lemma_subrange_shift(p, s, j, span(s, j, BytePred::Not(LF)));
    }
}

/// A list item reads the same whatever bytes precede it.
pub proof fn lemma_list_item_shift(p: Seq<u8>, s: Seq<u8>, k: int)
    requires
        0 <= k < s.len(),
    ensures
        list_item(p + s, p.len() + k) == (p.len() + list_item(s, k).0, list_item(s, k).1),
{
    let x = p + s;
    let q = p.len() as int;
    assert(x[q + k] == s[k]);
    if s[k] == 0x22u8 || s[k] == 0x27u8 {
        lemma_span_shift(p, s, k + 1, BytePred::Not(s[k]));
        lemma_span(s, k + 1, BytePred::Not(s[k]));
        lemma_subrange_shift(p, s, k + 1, span(s, k + 1, BytePred::Not(s[k])));
    } else {
        lemma_span_shift(p, s, k, BytePred::ListWord);
        lemma_span(s, k, BytePred::ListWord);
        lemma_subrange_shift(p, s, k, span(s, k, BytePred::ListWord));
    }
}

/// The items of a list read the same whatever bytes precede them.
pub proof fn lemma_list_items_shift(p: Seq<u8>, s: Seq<u8>, k: int)
    requires
        0 <= k <= s.len(),
    ensures
        list_items(p + s, p.len() + k) == (p.len() + list_items(s, k).0, list_items(s, k).1),
    decreases s.len() - k,
{
    let x = p + s;
    let q = p.len() as int;
    if k < s.len() {
        assert(x[q + k] == s[k]);
        if s[k] == HASH {
            lemma_span_shift(p, s, k, BytePred::Not(LF));
            lemma_span(s, k, BytePred::Not(LF));
            let m0 = span(s, k, BytePred::Not(LF));
            lemma_span_shift(p, s, m0, BytePred::Whitespace);
            lemma_span(s, m0, BytePred::Whitespace);
            let m = span(s, m0, BytePred::Whitespace);
            if k < m <= s.len() {
                lemma_list_items_shift(p, s, m);
            }
        } else if s[k] != 0x29u8 {
            lemma_list_item_shift(p, s, k);
            let e = list_item(s, k).0;
            if s[k] == 0x22u8 || s[k] == 0x27u8 {
                lemma_span(s, k + 1, BytePred::Not(s[k]));
            } else {
                lemma_span(s, k, BytePred::ListWord);
            }
            lemma_span_shift(p, s, e, BytePred::Whitespace);
            lemma_span(s, e, BytePred::Whitespace);
            let n = span(s, e, BytePred::Whitespace);
            if k < n <= s.len() {
                lemma_list_items_shift(p, s, n);
            }
        }
    }
}

proof fn lemma_list_field_shift(p: Seq<u8>, s: Seq<u8>, i: int)
    requires
        0 <= i <= s.len(),
    ensures
        list_field(p + s, p.len() + i) == (match list_field(s, i) {
            Ok((e, items)) => Ok((p.len() + e, items)),
            Err(f) => Err(f),
        }),
{
    let x = p + s;
    let q = p.len() as int;
    lemma_span_shift(p, s, i, BytePred::Whitespace);
    lemma_span(s, i, BytePred::Whitespace);
    let j = span(s, i, BytePred::Whitespace);
    if j < s.len() {
        assert(x[q + j] == s[j]);
        lemma_span_shift(p, s, j + 1, BytePred::Whitespace);
        lemma_span(s, j + 1, BytePred::Whitespace);
        lemma_list_items_shift(p, s, span(s, j + 1, BytePred::Whitespace));
    }
}

/// A function body reads the same whatever bytes precede it.
pub proof fn lemma_script_body_shift(p: Seq<u8>, s: Seq<u8>, i: int, depth: nat)
    requires
        0 <= i <= s.len(),
    ensures
        script_body(p + s, p.len() + i, depth) == (p.len() + script_body(s, i, depth).0, script_body(
            s,
            i,
            depth,
        ).1),
    decreases s.len() - i,
{
    let x = p + s;
    let q = p.len() as int;
    if i < s.len() {
        assert(x[q + i] == s[i]);
        let d = if s[i] == 0x7bu8 {
            depth + 1
        } else if s[i] == 0x7du8 {
            (depth - 1) as nat
        } else {
            depth
        };
        lemma_script_body_shift(p, s, i + 1, d);
    }
}

proof fn lemma_assignment_step_shift(p: Seq<u8>, s: Seq<u8>, i: int, key: Seq<u8>, d: DraftV)
    requires
        0 <= i <= s.len(),
    ensures
        assignment_step(p + s, p.len() + i, key, d) == shift_step(assignment_step(s, i, key, d), p.len() as int),
{
    lemma_str_field_shift(p, s, i);
    lemma_list_field_shift(p, s, i);
}

proof fn lemma_function_step_shift(p: Seq<u8>, s: Seq<u8>, i: int, key: Seq<u8>, d: DraftV)
    requires
        0 <= i <= s.len(),
    ensures
        function_step(p + s, p.len() + i, key, d) == shift_step(function_step(s, i, key, d), p.len() as int),
{
    let x = p + s;
    let q = p.len() as int;
    if i < s.len() {
        assert(x[q + i] == s[i]);
        lemma_span_shift(p, s, i + 1, BytePred::Whitespace);
        lemma_span(s, i + 1, BytePred::Whitespace);
        let u = span(s, i + 1, BytePred::Whitespace);
        if u < s.len() {
            assert(x[q + u] == s[u]);
            lemma_span_shift(p, s, u + 1, BytePred::Whitespace);
            lemma_span(s, u + 1, BytePred::Whitespace);
            lemma_script_body_shift(p, s, span(s, u + 1, BytePred::Whitespace), 0);
        }
    }
}

proof fn lemma_entry_step_shift(p: Seq<u8>, s: Seq<u8>, i: int, d: DraftV)
    requires
        0 <= i <= s.len(),
    ensures
        entry_step(p + s, p.len() + i, d) == shift_step(entry_step(s, i, d), p.len() as int),
{
    let x = p + s;
    let q = p.len() as int;
    lemma_span_shift(p, s, i, BytePred::Whitespace);
    lemma_span(s, i, BytePred::Whitespace);
    let j = span(s, i, BytePred::Whitespace);
    lemma_span_shift(p, s, j, BytePred::Alphabetic);
    lemma_span(s, j, BytePred::Alphabetic);
    let k = span(s, j, BytePred::Alphabetic);
    if k == j {
        if j < s.len() {
            assert(x[q + j] == s[j]);
            lemma_span_shift(p, s, j, BytePred::Not(LF));
            lemma_span(s, j, BytePred::Not(LF));
        }
    } else {
        lemma_subrange_shift(p, s, j, k);
        lemma_span_shift(p, s, k, BytePred::Whitespace);
        lemma_span(s, k, BytePred::Whitespace);
        let t = span(s, k, BytePred::Whitespace);
        if t < s.len() {
            assert(x[q + t] == s[t]);
            lemma_assignment_step_shift(p, s, t + 1, s.subrange(j, k), d);
            lemma_function_step_shift(p, s, t + 1, s.subrange(j, k), d);
        }
    }
}

/// The entries from a position of a manifest read the same whatever bytes
/// precede them.
pub proof fn lemma_entries_shift(p: Seq<u8>, s: Seq<u8>, i: int, d: DraftV)
    requires
        0 <= i <= s.len(),
    ensures
        entries(p + s, p.len() + i, d) == entries(s, i, d),
    decreases s.len() - i,
{
    lemma_entry_step_shift(p, s, i, d);
    lemma_entry_progress(s, i, d);
    match entry_step(s, i, d) {
        Step::Next(e, d2) => {
            lemma_entries_shift(p, s, e, d2);
        },
        _ => {},
    }
}

/// Entries read the same after blank space.
pub proof fn lemma_entries_after_whitespace(w: Seq<u8>, s: Seq<u8>, d: DraftV)
    requires
        forall|j: int| 0 <= j < w.len() ==> is_ws(#[trigger] w[j]),
    ensures
        entries(w + s, 0, d) == entries(s, 0, d),
{
    let x = w + s;
    let q = w.len() as int;
    lemma_skip_run(x, 0, q, BytePred::Whitespace);
    assert(entry_step(x, 0, d) == entry_step(x, q, d));
    lemma_entry_step_shift(w, s, 0, d);
    lemma_entry_progress(s, 0, d);
    match entry_step(s, 0, d) {
        Step::Next(e, d2) => {
            lemma_entries_shift(w, s, e, d2);
        },
        _ => {},
    }
}

/// Blank space in front of a manifest changes nothing.
pub proof fn lemma_leading_whitespace(w: Seq<u8>, s: Seq<u8>)
    requires
        forall|j: int| 0 <= j < w.len() ==> is_ws(#[trigger] w[j]),
    ensures
        scan(w + s) == scan(s),
        parse_spec(w + s) == parse_spec(s),
{
    lemma_entries_after_whitespace(w, s, DraftV::empty());
}

/// A comment line is skipped wherever it stands: whatever fields were read
/// before it, reading goes on after it as if it were not there.
pub proof fn lemma_comment_skipped(c: Seq<u8>, s: Seq<u8>, d: DraftV)
    requires
        c.len() >= 2,
        c[0] == HASH,
        c.last() == LF,
        forall|j: int| 0 <= j < c.len() - 1 ==> #[trigger] c[j] != LF,
    ensures
        entries(c + s, 0, d) == entries(s, 0, d),
{
    let x = c + s;
    let q = c.len() as int;
    assert(x[0] == HASH);
    assert(x[q - 1] == LF);
    assert(!is_ws(x[0]));
    assert(span(x, 0, BytePred::Whitespace) == 0);
    assert(span(x, 0, BytePred::Alphabetic) == 0);
    lemma_skip_run(x, 0, q - 1, BytePred::Not(LF));
    assert(span(x, q - 1, BytePred::Not(LF)) == q - 1);
    assert(entry_step(x, 0, d) == Step::Next(q, d));
    lemma_entries_shift(c, s, 0, d);
}

/// A comment line in front of a manifest changes nothing.
pub proof fn lemma_leading_comment(c: Seq<u8>, s: Seq<u8>)
    requires
        c.len() >= 2,
        c[0] == HASH,
        c.last() == LF,
        forall|j: int| 0 <= j < c.len() - 1 ==> #[trigger] c[j] != LF,
    ensures
        scan(c + s) == scan(s),
        parse_spec(c + s) == parse_spec(s),
{
    lemma_comment_skipped(c, s, DraftV::empty());
}

/// A run of `pr`-bytes from `i` to `k` can be skipped before scanning.
proof fn lemma_skip_run(x: Seq<u8>, i: int, k: int, pr: BytePred)
    requires
        0 <= i <= k <= x.len(),
        forall|j: int| i <= j < k ==> pr.holds(#[trigger] x[j]),
    ensures
        span(x, i, pr) == span(x, k, pr),
    decreases k - i,
{
    if i < k {
        lemma_skip_run(x, i + 1, k, pr);
    }
}

/// Any blank space after the `(` that opens a list, line feeds included, is
/// skipped: the list reads the same items as without it, and ends as many
/// bytes later as the blank space is long.
pub proof fn lemma_list_blank_after_paren(p: Seq<u8>, w: Seq<u8>, t: Seq<u8>)
    requires
        forall|j: int| 0 <= j < w.len() ==> is_ws(#[trigger] w[j]),
    ensures
        ({
            let x = p + seq![LPAREN] + w + t;
            let y = p + seq![LPAREN] + t;
            &&& list_field(x, p.len() as int) matches Ok((e1, items1))
            &&& list_field(y, p.len() as int) matches Ok((e2, items2))
            &&& items1 == items2
            &&& e1 == e2 + w.len()
        }),
{
    let x = p + seq![LPAREN] + w + t;
    let y = p + seq![LPAREN] + t;
    let q = p.len() as int;
    let m = w.len() as int;
    assert(x[q] == LPAREN);
    assert(y[q] == LPAREN);
    lemma_skip_run(x, q, q, BytePred::Whitespace);
    lemma_skip_run(y, q, q, BytePred::Whitespace);
    assert(span(x, q, BytePred::Whitespace) == q);
    assert(span(y, q, BytePred::Whitespace) == q);
    let px = p + seq![LPAREN] + w;
    let py = p + seq![LPAREN];
    assert(x =~= px + t);
    assert(y =~= py + t);
    assert forall|j: int| q + 1 <= j < q + 1 + m implies BytePred::Whitespace.holds(#[trigger] x[j]) by {
        assert(x[j] == w[j - q - 1]);
    }
    lemma_skip_run(x, q + 1, q + 1 + m, BytePred::Whitespace);
    lemma_span_shift(px, t, 0, BytePred::Whitespace);
    lemma_span_shift(py, t, 0, BytePred::Whitespace);
    lemma_span(t, 0, BytePred::Whitespace);
    let k = span(t, 0, BytePred::Whitespace);
    lemma_list_items_shift(px, t, k);
    lemma_list_items_shift(py, t, k);
}

} // verus!
