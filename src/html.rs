//! Lays captured lock events out as a document of timelines.

use std::collections::HashMap;
use std::time::Duration;

use vstd::prelude::*;

use crate::event::{Event, Events, Leave, LockKind};

verus! {

/// The decimal digit of `d`.
pub open spec fn digit_char(d: nat) -> char {
    if d == 0 {
        '0'
    } else if d == 1 {
        '1'
    } else if d == 2 {
        '2'
    } else if d == 3 {
        '3'
    } else if d == 4 {
        '4'
    } else if d == 5 {
        '5'
    } else if d == 6 {
        '6'
    } else if d == 7 {
        '7'
    } else if d == 8 {
        '8'
    } else {
        '9'
    }
}

/// The decimal digits of `n`, without leading zeros.
pub open spec fn decimal(n: nat) -> Seq<char>
    decreases n,
{
    if n < 10 {
        seq![digit_char(n)]
    } else {
        decimal(n / 10).push(digit_char(n % 10))
    }
}

fn digit_str(d: u64) -> (r: &'static str)
    requires
        d < 10,
    ensures
        r@ == seq![digit_char(d as nat)],
{
    proof {
        reveal_strlit("0");
        reveal_strlit("1");
        reveal_strlit("2");
        reveal_strlit("3");
        reveal_strlit("4");
        reveal_strlit("5");
        reveal_strlit("6");
        reveal_strlit("7");
        reveal_strlit("8");
        reveal_strlit("9");
    }
    if d == 0 {
        "0"
    } else if d == 1 {
        "1"
    } else if d == 2 {
        "2"
    } else if d == 3 {
        "3"
    } else if d == 4 {
        "4"
    } else if d == 5 {
        "5"
    } else if d == 6 {
        "6"
    } else if d == 7 {
        "7"
    } else if d == 8 {
        "8"
    } else {
        "9"
    }
}

/// Append the decimal digits of `n`.
pub fn push_decimal(out: &mut String, n: u64)
    ensures
        final(out)@ == old(out)@ + decimal(n as nat),
    decreases n,
{
    if n < 10 {
        out.append(digit_str(n));
    } else {
        push_decimal(out, n / 10);
        out.append(digit_str(n % 10));
        proof {
            assert(old(out)@ + decimal(n as nat) =~= old(out)@ + decimal((n / 10) as nat) + seq![
                digit_char((n % 10) as nat),
            ]);
        }
    }
}

/// A character as it stands in markup: `<` and `>` as entities.
pub open spec fn escaped_char(c: char) -> Seq<char> {
    if c == '<' {
        seq!['&', 'l', 't', ';']
    } else if c == '>' {
        seq!['&', 'g', 't', ';']
    } else {
        seq![c]
    }
}

/// Text as it stands in markup.
pub open spec fn escaped(s: Seq<char>) -> Seq<char>
    decreases s.len(),
{
    if s.len() == 0 {
        Seq::empty()
    } else {
        escaped(s.drop_last()) + escaped_char(s.last())
    }
}

/// Append `s` with `<` and `>` written as entities.
pub fn push_escaped(out: &mut String, s: &str)
    ensures
        final(out)@ == old(out)@ + escaped(s@),
{
    let n = s.unicode_len();
    let mut i: usize = 0;
    while i < n
        invariant
            n == s@.len(),
            i <= n,
            out@ == old(out)@ + escaped(s@.subrange(0, i as int)),
        decreases n - i,
    {
        let c = s.get_char(i);
        let ghost prev = out@;
        if c == '<' {
            out.append("&lt;");
            proof {
                reveal_strlit("&lt;");
            }
            assert("&lt;"@ =~= seq!['&', 'l', 't', ';']);
        } else if c == '>' {
            out.append("&gt;");
            proof {
                reveal_strlit("&gt;");
            }
            assert("&gt;"@ =~= seq!['&', 'g', 't', ';']);
        } else {
            out.append(s.substring_char(i, i + 1));
            assert(s@.subrange(i as int, i + 1) =~= seq![c]);
        }
        assert(out@ == prev + escaped_char(c));
        proof {
            let t = s@.subrange(0, i + 1);
            assert(t.drop_last() =~= s@.subrange(0, i as int));
            assert(t.last() == c);
            assert(s@.subrange(i as int, i + 1) =~= seq![c]);
            assert(out@ =~= old(out)@ + escaped(t));
        }
        i = i + 1;
    }
    assert(s@.subrange(0, n as int) =~= s@);
}

/// `part` of `total` in whole percent, rounded half up.
pub open spec fn percent_of(part: nat, total: nat) -> nat {
    ((200 * part + total) / (2 * total)) as nat
}

/// `part` of `total` in whole percent, rounded half up, where a negative part
/// counts as zero and a part beyond the total as the total.
pub open spec fn clamped_percent(part: int, total: nat) -> nat {
    if part <= 0 {
        percent_of(0, total)
    } else if part > total {
        percent_of(total, total)
    } else {
        percent_of(part as nat, total)
    }
}

/// `part` of `total` in whole percent, rounded half up; a part beyond the
/// total counts as the total.
pub fn percent(part: u64, total: u64) -> (r: u64)
    requires
        total > 0,
    ensures
        r == clamped_percent(part as int, total as nat),
        r <= 100,
{
    let p: u64 = if part > total { total } else { part };
    let num: u128 = 200 * (p as u128) + (total as u128);
    let den: u128 = 2 * (total as u128);
    let q = num / den;
    assert(q <= 100) by (nonlinear_arith)
        requires
            q == num / den,
            num == 200 * p + total,
            den == 2 * total,
            p <= total,
            total > 0,
    ;
    assert(0 == percent_of(0, total as nat)) by (nonlinear_arith)
        requires
            total > 0,
    ;
    q as u64
}

/// Where a span from `open` to `close` stands in the window from `start` to
/// `end`, as whole percent of the window: its left edge and its width.
/// A close before the open gives a width of zero.
pub fn layout(open: u64, close: u64, start: u64, end: u64) -> (r: (u64, u64))
    requires
        start < end,
    ensures
        r.0 == clamped_percent(open - start, (end - start) as nat),
        r.1 == clamped_percent(close - open, (end - start) as nat),
{
    let total = end - start;
    let left = percent(if open >= start { open - start } else { 0 }, total);
    let width = percent(if close >= open { close - open } else { 0 }, total);
    (left, width)
}

/// The earliest enter timestamp (`u64::MAX` where there is none).
pub open spec fn min_open(enters: Seq<Event>) -> u64
    decreases enters.len(),
{
    if enters.len() == 0 {
        0xFFFF_FFFF_FFFF_FFFFu64
    } else {
        let rest = min_open(enters.drop_last());
        if enters.last().timestamp < rest {
            enters.last().timestamp
        } else {
            rest
        }
    }
}

/// The latest leave timestamp (zero where there is none).
pub open spec fn max_close(leaves: Seq<Leave>) -> u64
    decreases leaves.len(),
{
    if leaves.len() == 0 {
        0
    } else {
        let rest = max_close(leaves.drop_last());
        if leaves.last().timestamp > rest {
            leaves.last().timestamp
        } else {
            rest
        }
    }
}

/// The close timestamp of each event id: that of the last leave naming it.
pub open spec fn close_map(leaves: Seq<Leave>) -> Map<usize, u64>
    decreases leaves.len(),
{
    if leaves.len() == 0 {
        Map::empty()
    } else {
        close_map(leaves.drop_last()).insert(leaves.last().sibling.0, leaves.last().timestamp)
    }
}

/// The index of each event id among the enters: that of the last enter
/// under it.
pub open spec fn id_index(enters: Seq<Event>) -> Map<usize, usize>
    decreases enters.len(),
{
    if enters.len() == 0 {
        Map::empty()
    } else {
        id_index(enters.drop_last()).insert(enters.last().id.0, (enters.len() - 1) as usize)
    }
}

/// The index of the parent of the enter at `k`: the enter its parent id
/// names, where that stands before it.
pub open spec fn parent_at(enters: Seq<Event>, k: int) -> Option<int> {
    match enters[k].parent {
        Some(p) => {
            let ids = id_index(enters);
            if ids.contains_key(p.0) && (ids[p.0] as int) < k {
                Some(ids[p.0] as int)
            } else {
                None
            }
        },
        None => None,
    }
}

/// The first child of the enter at `p` at or after index `from`, or the
/// number of enters where there is none.
pub open spec fn next_child(enters: Seq<Event>, p: int, from: int) -> int
    decreases enters.len() - from,
{
    if from >= enters.len() {
        enters.len() as int
    } else if parent_at(enters, from) == Some(p) {
        from
    } else {
        next_child(enters, p, from + 1)
    }
}

proof fn lemma_next_child_bounds(enters: Seq<Event>, p: int, from: int)
    requires
        0 <= from,
    ensures
        from <= next_child(enters, p, from) || next_child(enters, p, from) == enters.len(),
        next_child(enters, p, from) <= enters.len(),
        next_child(enters, p, from) < enters.len() ==> parent_at(enters, next_child(enters, p, from))
            == Some(p),
    decreases enters.len() - from,
{
    if from < enters.len() && parent_at(enters, from) != Some(p) {
        lemma_next_child_bounds(enters, p, from + 1);
    }
}

/// Links from each enter to its first child, and from each child to the
/// next child of the same parent.
pub open spec fn links_valid(enters: Seq<Event>, first_child: Seq<usize>, next_sibling: Seq<usize>) -> bool {
    &&& first_child.len() == enters.len()
    &&& next_sibling.len() == enters.len()
    &&& forall|p: int| 0 <= p < enters.len() ==> first_child[p] as int == next_child(enters, p, p + 1)
    &&& forall|k: int|
        0 <= k < enters.len() ==> (#[trigger] parent_at(enters, k) matches Some(p) ==> next_sibling[k] as int
            == next_child(enters, p, k + 1))
}

/// The close timestamp of each event id.
pub fn closes_of(leaves: &Vec<Leave>) -> (r: HashMap<usize, u64>)
    ensures
        r@ == close_map(leaves@),
{
    broadcast use vstd::std_specs::hash::group_hash_axioms;

    let mut closes: HashMap<usize, u64> = HashMap::new();
    let mut i: usize = 0;
    while i < leaves.len()
        invariant
            i <= leaves@.len(),
            closes@ == close_map(leaves@.subrange(0, i as int)),
        decreases leaves@.len() - i,
    {
        closes.insert(leaves[i].sibling.0, leaves[i].timestamp);
        proof {
            assert(leaves@.subrange(0, i + 1).drop_last() =~= leaves@.subrange(0, i as int));
        }
        i = i + 1;
    }
    assert(leaves@.subrange(0, leaves@.len() as int) =~= leaves@);
    closes
}

/// The index of each event id among the enters.
fn index_of_ids(enters: &Vec<Event>) -> (r: HashMap<usize, usize>)
    ensures
        r@ == id_index(enters@),
{
    broadcast use vstd::std_specs::hash::group_hash_axioms;

    let mut ids: HashMap<usize, usize> = HashMap::new();
    let mut i: usize = 0;
    while i < enters.len()
        invariant
            i <= enters@.len(),
            ids@ == id_index(enters@.subrange(0, i as int)),
        decreases enters@.len() - i,
    {
        ids.insert(enters[i].id.0, i);
        proof {
            assert(enters@.subrange(0, i + 1).drop_last() =~= enters@.subrange(0, i as int));
        }
        i = i + 1;
    }
    assert(enters@.subrange(0, enters@.len() as int) =~= enters@);
    ids
}

/// The parent index of each enter, or the number of enters where it has
/// none.
fn parents_of(enters: &Vec<Event>) -> (r: Vec<usize>)
    ensures
        r@.len() == enters@.len(),
        forall|k: int|
            0 <= k < enters@.len() ==> match #[trigger] parent_at(enters@, k) {
                Some(p) => r@[k] as int == p,
                None => r@[k] == enters@.len(),
            },
{
    broadcast use vstd::std_specs::hash::group_hash_axioms;

    let ids = index_of_ids(enters);
    let n = enters.len();
    let mut parents: Vec<usize> = Vec::with_capacity(n);
    let mut k: usize = 0;
    while k < n
        invariant
            n == enters@.len(),
            k <= n,
            ids@ == id_index(enters@),
            parents@.len() == k,
            forall|j: int|
                0 <= j < k ==> match #[trigger] parent_at(enters@, j) {
                    Some(p) => parents@[j] as int == p,
                    None => parents@[j] == n,
                },
        decreases n - k,
    {
        let mut parent: usize = n;
        if let Some(p) = enters[k].parent {
            if let Some(j) = ids.get(&p.0) {
                if *j < k {
                    parent = *j;
                }
            }
        }
        parents.push(parent);
        k = k + 1;
    }
    parents
}

/// Link each enter to its children, in index order.
fn link_children(enters: &Vec<Event>) -> (r: (Vec<usize>, Vec<usize>))
    ensures
        links_valid(enters@, r.0@, r.1@),
{
    let n = enters.len();
    let parents = parents_of(enters);
    let mut first_child: Vec<usize> = Vec::with_capacity(n);
    let mut next_sibling: Vec<usize> = Vec::with_capacity(n);
    let mut i: usize = 0;
    while i < n
        invariant
            i <= n,
            first_child@.len() == i,
            next_sibling@.len() == i,
            forall|j: int| 0 <= j < i ==> first_child@[j] == n && next_sibling@[j] == n,
        decreases n - i,
    {
        first_child.push(n);
        next_sibling.push(n);
        i = i + 1;
    }
    let mut k: usize = n;
    while k > 0
        invariant
            n == enters@.len(),
            k <= n,
            parents@.len() == n,
            forall|j: int|
                0 <= j < n ==> match #[trigger] parent_at(enters@, j) {
                    Some(p) => parents@[j] as int == p,
                    None => parents@[j] == n,
                },
            first_child@.len() == n,
            next_sibling@.len() == n,
            forall|p: int| 0 <= p < n ==> first_child@[p] as int == next_child(enters@, p, k as int),
            forall|j: int|
                k <= j < n ==> (#[trigger] parent_at(enters@, j) matches Some(p) ==> next_sibling@[j] as int
                    == next_child(enters@, p, j + 1)),
        decreases k,
    {
        k = k - 1;
        let ghost old_first = first_child@;
        let p = parents[k];
        if p < n {
            let first = first_child[p];
            next_sibling.set(k, first);
            first_child.set(p, k);
        }
        assert forall|q: int| 0 <= q < n implies first_child@[q] as int == next_child(
            enters@,
            q,
            k as int,
        ) by {
            assert(old_first[q] as int == next_child(enters@, q, k + 1));
            assert(next_child(enters@, q, k as int) == if parent_at(enters@, k as int) == Some(q) {
                k as int
            } else {
                next_child(enters@, q, k + 1)
            });
        }
    }
    assert forall|p: int| 0 <= p < n implies first_child@[p] as int == next_child(enters@, p, p + 1) by {
        lemma_skip_before(enters@, p, 0);
    }
    (first_child, next_sibling)
}

/// No enter is a child of one at or after it, so the children of `p` come
/// after `p`.
proof fn lemma_skip_before(enters: Seq<Event>, p: int, from: int)
    requires
        0 <= from <= p + 1,
        0 <= p < enters.len(),
    ensures
        next_child(enters, p, from) == next_child(enters, p, p + 1),
    decreases p + 1 - from,
{
    if from < p + 1 {
        assert(parent_at(enters, from) != Some(p));
        lemma_skip_before(enters, p, from + 1);
    }
}

/// How `Duration`'s `Debug` writes a duration of `nanos` nanoseconds.
pub uninterp spec fn duration_debug(nanos: u64) -> Seq<char>;

/// Relies on `Duration::from_nanos` and `Duration`'s `Debug`: the duration
/// written with its unit (`1.5µs`); the text depends on the value alone.
#[verifier::external_body]
fn duration_text(nanos: u64) -> (r: String)
    ensures
        r@ == duration_debug(nanos),
{
    format!("{:?}", Duration::from_nanos(nanos))
}

/// `b - a`, or zero where `b` is before `a`.
pub open spec fn elapsed_between(a: u64, b: u64) -> u64 {
    if b >= a {
        (b - a) as u64
    } else {
        0
    }
}

/// The box of a span on its timeline.
pub open spec fn section_div(e: Event, close: u64, start: u64, end: u64) -> Seq<char> {
    let total = (end - start) as nat;
    let left = clamped_percent(e.timestamp - start, total);
    let width = clamped_percent(close - e.timestamp, total);
    "<div id=\"event-"@ + decimal(e.id.0 as nat) + "\" class=\"section "@ + escaped(e.name@)
        + "\" style=\"width: "@ + decimal(width) + "%; left: "@ + decimal(left) + "%;\" title=\""@
        + escaped(e.name@) + " ("@ + duration_debug(e.timestamp) + "-"@ + duration_debug(close)
        + ")\"></div>\n"@
}

/// The row of a span in its details table, with its backtrace where it has
/// one.
pub open spec fn section_row(e: Event, close: u64) -> Seq<char> {
    let row = "<tr data-entry data-entry-start=\""@ + decimal(e.timestamp as nat)
        + "\" data-entry-close=\""@ + decimal(close as nat) + "\"><td class=\"title "@ + escaped(
        e.name@,
    ) + "\">"@ + escaped(e.name@) + "</td><td>"@ + duration_debug(e.timestamp)
        + "</td><td>&mdash;</td><td>"@ + duration_debug(close) + "</td><td>("@ + duration_debug(
        elapsed_between(e.timestamp, close),
    ) + ")</td><td width=\"100%\"></td></tr>\n"@;
    match e.backtrace {
        Some(b) => row + "<tr><td>Backtrace:</td><td class=\"backtrace\" colspan=\"5\">"@ + escaped(
            b.0@,
        ) + "</td></tr>\n"@,
        None => row,
    }
}

/// The boxes and the detail rows of the span of the enter at `i` and of its
/// descendants, each child after its parent and children in index order.
/// Empty where the span was never left.
pub open spec fn section_text(
    enters: Seq<Event>,
    closes: Map<usize, u64>,
    start: u64,
    end: u64,
    i: int,
) -> (Seq<char>, Seq<char>)
    decreases enters.len() - i, 1int,
{
    if i < 0 || i >= enters.len() || !closes.contains_key(enters[i].id.0) {
        (Seq::empty(), Seq::empty())
    } else {
        let close = closes[enters[i].id.0];
        let kids = children_text(enters, closes, start, end, i, i + 1);
        (
            section_div(enters[i], close, start, end) + kids.0,
            section_row(enters[i], close) + kids.1,
        )
    }
}

/// The sections of the children of the enter at `p` from index `from` on.
pub open spec fn children_text(
    enters: Seq<Event>,
    closes: Map<usize, u64>,
    start: u64,
    end: u64,
    p: int,
    from: int,
) -> (Seq<char>, Seq<char>)
    decreases enters.len() - from, 2int,
{
    if from < 0 || from >= enters.len() {
        (Seq::empty(), Seq::empty())
    } else {
        let rest = children_text(enters, closes, start, end, p, from + 1);
        if parent_at(enters, from) == Some(p) {
            let own = section_text(enters, closes, start, end, from);
            (own.0 + rest.0, own.1 + rest.1)
        } else {
            rest
        }
    }
}

proof fn lemma_children_skip(
    enters: Seq<Event>,
    closes: Map<usize, u64>,
    start: u64,
    end: u64,
    p: int,
    from: int,
)
    requires
        0 <= from <= enters.len(),
    ensures
        children_text(enters, closes, start, end, p, from) == children_text(
            enters,
            closes,
            start,
            end,
            p,
            next_child(enters, p, from),
        ),
    decreases enters.len() - from,
{
    if from < enters.len() && parent_at(enters, from) != Some(p) {
        lemma_children_skip(enters, closes, start, end, p, from + 1);
    }
}

fn append_duration(out: &mut String, nanos: u64)
    ensures
        final(out)@ == old(out)@ + duration_debug(nanos),
{
    let text = duration_text(nanos);
    out.append(text.as_str());
}

fn push_section_div(out: &mut String, e: &Event, close: u64, start: u64, end: u64)
    requires
        start < end,
    ensures
        final(out)@ == old(out)@ + section_div(*e, close, start, end),
{
    let (left, width) = layout(e.timestamp, close, start, end);
    let mut t = String::from_str("<div id=\"event-");
    push_decimal(&mut t, e.id.0 as u64);
    t.append("\" class=\"section ");
    push_escaped(&mut t, e.name.as_str());
    t.append("\" style=\"width: ");
    push_decimal(&mut t, width);
    t.append("%; left: ");
    push_decimal(&mut t, left);
    t.append("%;\" title=\"");
    push_escaped(&mut t, e.name.as_str());
    t.append(" (");
    append_duration(&mut t, e.timestamp);
    t.append("-");
    append_duration(&mut t, close);
    t.append(")\"></div>\n");
    out.append(t.as_str());
}

fn push_section_row(d: &mut String, e: &Event, close: u64)
    ensures
        final(d)@ == old(d)@ + section_row(*e, close),
{
    let mut t = String::from_str("<tr data-entry data-entry-start=\"");
    push_decimal(&mut t, e.timestamp);
    t.append("\" data-entry-close=\"");
    push_decimal(&mut t, close);
    t.append("\"><td class=\"title ");
    push_escaped(&mut t, e.name.as_str());
    t.append("\">");
    push_escaped(&mut t, e.name.as_str());
    t.append("</td><td>");
    append_duration(&mut t, e.timestamp);
    t.append("</td><td>&mdash;</td><td>");
    append_duration(&mut t, close);
    t.append("</td><td>(");
    append_duration(&mut t, if close >= e.timestamp { close - e.timestamp } else { 0 });
    t.append(")</td><td width=\"100%\"></td></tr>\n");
    if let Some(b) = &e.backtrace {
        t.append("<tr><td>Backtrace:</td><td class=\"backtrace\" colspan=\"5\">");
        push_escaped(&mut t, b.0.as_str());
        t.append("</td></tr>\n");
    }
    d.append(t.as_str());
}

/// Write the box of the span of the enter at `i` to `out` and its detail
/// rows to `d`, followed by those of its descendants. A span that was never
/// left is skipped, with its descendants.
fn write_section(
    out: &mut String,
    d: &mut String,
    enters: &Vec<Event>,
    closes: &HashMap<usize, u64>,
    first_child: &Vec<usize>,
    next_sibling: &Vec<usize>,
    start: u64,
    end: u64,
    i: usize,
)
    requires
        start < end,
        i < enters@.len(),
        links_valid(enters@, first_child@, next_sibling@),
    ensures
        final(out)@ == old(out)@ + section_text(enters@, closes@, start, end, i as int).0,
        final(d)@ == old(d)@ + section_text(enters@, closes@, start, end, i as int).1,
    decreases enters@.len() - i,
{
    broadcast use vstd::std_specs::hash::group_hash_axioms;

    let ghost es = enters@;
    let ghost cs = closes@;
    let close = match closes.get(&enters[i].id.0) {
        Some(close) => *close,
        None => {
            assert(out@ =~= old(out)@ + Seq::<char>::empty());
            assert(d@ =~= old(d)@ + Seq::<char>::empty());
            return ;
        },
    };
    push_section_div(out, &enters[i], close, start, end);
    push_section_row(d, &enters[i], close);
    let ghost own_out = out@;
    let ghost own_d = d@;
    let n = enters.len();
    let mut c = first_child[i];
    proof {
        lemma_next_child_bounds(es, i as int, i + 1);
        lemma_children_skip(es, cs, start, end, i as int, i + 1);
    }
    while c < n
        invariant
            n == es.len(),
            es == enters@,
            cs == closes@,
            start < end,
            i < n,
            links_valid(es, first_child@, next_sibling@),
            c <= n,
            c < n ==> i < c && parent_at(es, c as int) == Some(i as int),
            out@ + children_text(es, cs, start, end, i as int, c as int).0 =~= own_out
                + children_text(es, cs, start, end, i as int, i + 1).0,
            d@ + children_text(es, cs, start, end, i as int, c as int).1 =~= own_d
                + children_text(es, cs, start, end, i as int, i + 1).1,
        decreases n - c,
    {
        let ghost before_out = out@;
        let ghost before_d = d@;
        write_section(out, d, enters, closes, first_child, next_sibling, start, end, c);
        let next = next_sibling[c];
        proof {
            lemma_next_child_bounds(es, i as int, c + 1);
            lemma_children_skip(es, cs, start, end, i as int, c + 1);
            let own = section_text(es, cs, start, end, c as int);
            let rest = children_text(es, cs, start, end, i as int, c + 1);
            assert(children_text(es, cs, start, end, i as int, c as int) == (
                own.0 + rest.0,
                own.1 + rest.1,
            ));
            assert(out@ + rest.0 =~= before_out + (own.0 + rest.0));
            assert(d@ + rest.1 =~= before_d + (own.1 + rest.1));
        }
        c = next;
    }
    proof {
        assert(children_text(es, cs, start, end, i as int, c as int).0 =~= Seq::<char>::empty());
    }
}

/// The key a root span is laid out by: the packed lock identifier, its
/// guarded type, the thread index, and the index of the enter.
pub type RowKey = (u32, String, usize, usize);

/// Whether the enter at `k` opens a root span (one with no parent).
pub open spec fn is_root(enters: Seq<Event>, k: int) -> bool {
    enters[k].parent is None
}

/// The key of the root span at `k`.
pub open spec fn root_key(enters: Seq<Event>, k: int) -> RowKey {
    (enters[k].lock.spec_raw(), enters[k].guarded_type, enters[k].thread_index, k as usize)
}

/// The keys of the root spans among the first `i` enters, in index order.
pub open spec fn root_keys(enters: Seq<Event>, i: int) -> Seq<RowKey>
    decreases i,
{
    if i <= 0 {
        Seq::empty()
    } else if is_root(enters, i - 1) {
        root_keys(enters, i - 1).push(root_key(enters, i - 1))
    } else {
        root_keys(enters, i - 1)
    }
}

/// Text `a` orders strictly before text `b`: character by character, a
/// proper prefix first.
pub open spec fn text_lt(a: Seq<char>, b: Seq<char>) -> bool
    decreases a.len(),
{
    if a.len() == 0 {
        b.len() > 0
    } else if b.len() == 0 {
        false
    } else if (a[0] as u32) < (b[0] as u32) {
        true
    } else if a[0] == b[0] {
        text_lt(a.drop_first(), b.drop_first())
    } else {
        false
    }
}

/// Keys in lexicographic order, the guarded type by its text.
pub open spec fn key_le(a: RowKey, b: RowKey) -> bool {
    a.0 < b.0 || (a.0 == b.0 && (text_lt(a.1@, b.1@) || (a.1@ == b.1@ && (a.2 < b.2 || (a.2 == b.2
        && a.3 <= b.3)))))
}

pub open spec fn keys_sorted(ks: Seq<RowKey>) -> bool {
    forall|i: int, j: int| 0 <= i < j < ks.len() ==> key_le(ks[i], ks[j])
}

/// Relies on `slice::sort`: the keys in the lexicographic order of tuples,
/// where a `String` orders by its bytes, which for UTF-8 is the order of its
/// characters.
#[verifier::external_body]
fn sort_keys(keys: &mut Vec<RowKey>)
    ensures
        final(keys)@.to_multiset() == old(keys)@.to_multiset(),
        keys_sorted(final(keys)@),
{
    keys.sort()
}

pub open spec fn same_group(a: RowKey, b: RowKey) -> bool {
    a.0 == b.0 && a.1@ == b.1@
}

pub open spec fn same_row(a: RowKey, b: RowKey) -> bool {
    a.0 == b.0 && a.1@ == b.1@ && a.2 == b.2
}

/// The end of the run of keys from `a` in the group of `ks[a]`, scanning
/// from `from` and stopping at `bound`.
pub open spec fn group_end(ks: Seq<RowKey>, a: int, from: int, bound: int) -> int
    decreases bound - from,
{
    if from >= bound || !same_group(ks[a], ks[from]) {
        from
    } else {
        group_end(ks, a, from + 1, bound)
    }
}

/// The end of the run of keys from `a` in the row of `ks[a]`, scanning
/// from `from` and stopping at `bound`.
pub open spec fn row_end(ks: Seq<RowKey>, a: int, from: int, bound: int) -> int
    decreases bound - from,
{
    if from >= bound || !same_row(ks[a], ks[from]) {
        from
    } else {
        row_end(ks, a, from + 1, bound)
    }
}

/// The earliest open of the spans of `ks[a..b]`.
pub open spec fn row_start(enters: Seq<Event>, ks: Seq<RowKey>, a: int, b: int) -> u64
    decreases b - a,
{
    if b <= a {
        0xFFFF_FFFF_FFFF_FFFFu64
    } else {
        let rest = row_start(enters, ks, a, b - 1);
        let t = enters[ks[b - 1].3 as int].timestamp;
        if t < rest {
            t
        } else {
            rest
        }
    }
}

/// The latest close of the spans of `ks[a..b]` (zero where none closed).
pub open spec fn row_finish(enters: Seq<Event>, closes: Map<usize, u64>, ks: Seq<RowKey>, a: int, b: int) -> u64
    decreases b - a,
{
    if b <= a {
        0
    } else {
        let rest = row_finish(enters, closes, ks, a, b - 1);
        let id = enters[ks[b - 1].3 as int].id.0;
        if closes.contains_key(id) && closes[id] > rest {
            closes[id]
        } else {
            rest
        }
    }
}

/// The boxes and the detail rows of one root span: a heading row, then its
/// section (where the window is not empty). Nothing where it was never left.
pub open spec fn span_text(enters: Seq<Event>, closes: Map<usize, u64>, start: u64, end: u64, k: int) -> (
    Seq<char>,
    Seq<char>,
) {
    let e = enters[k];
    if !closes.contains_key(e.id.0) {
        (Seq::empty(), Seq::empty())
    } else {
        let close = closes[e.id.0];
        let head = "<tr data-entry data-entry-start=\""@ + decimal(e.timestamp as nat)
            + "\" data-entry-close=\""@ + decimal(close as nat)
            + "\"><td class=\"title\" colspan=\"6\">Event: "@ + decimal(e.id.0 as nat)
            + "</td></tr>\n"@;
        if start < end {
            let sec = section_text(enters, closes, start, end, k);
            (sec.0, head + sec.1)
        } else {
            (Seq::empty(), head)
        }
    }
}

/// The spans of `ks[a..b]`, in key order.
pub open spec fn spans_text(
    enters: Seq<Event>,
    closes: Map<usize, u64>,
    start: u64,
    end: u64,
    ks: Seq<RowKey>,
    a: int,
    b: int,
) -> (Seq<char>, Seq<char>)
    decreases b - a,
{
    if b <= a {
        (Seq::empty(), Seq::empty())
    } else {
        let rest = spans_text(enters, closes, start, end, ks, a, b - 1);
        let own = span_text(enters, closes, start, end, ks[b - 1].3 as int);
        (rest.0 + own.0, rest.1 + own.1)
    }
}

/// The timeline of one thread for one lock: the spans of `ks[a..b]`, then
/// their details table where there are details.
pub open spec fn row_text(
    enters: Seq<Event>,
    closes: Map<usize, u64>,
    start: u64,
    end: u64,
    ks: Seq<RowKey>,
    a: int,
    b: int,
) -> Seq<char> {
    let lock = ks[a].0 as nat;
    let thread = ks[a].2 as nat;
    let spans = spans_text(enters, closes, start, end, ks, a, b);
    "<div data-toggle=\"event-"@ + decimal(lock) + "-"@ + decimal(thread) + "-details\" data-start=\""@
        + decimal(row_start(enters, ks, a, b) as nat) + "\" data-end=\""@ + decimal(
        row_finish(enters, closes, ks, a, b) as nat,
    ) + "\" class=\"timeline\">\n"@ + spans.0 + "<span class=\"section-heading\"><span>"@
        + decimal(thread) + "</span></span>\n<div class=\"timeline-target\"></div>\n</div>\n"@
        + details_table(lock, thread, spans.1)
}

/// The details table of a row, where it has details.
pub open spec fn details_table(lock: nat, thread: nat, details: Seq<char>) -> Seq<char> {
    if details.len() > 0 {
        "<table id=\"event-"@ + decimal(lock) + "-"@ + decimal(thread) + "-details\" class=\"details\">\n"@
            + details + "</table>\n"@
    } else {
        Seq::empty()
    }
}

/// The rows of `ks[a..b]`, one per thread.
pub open spec fn rows_text(
    enters: Seq<Event>,
    closes: Map<usize, u64>,
    start: u64,
    end: u64,
    ks: Seq<RowKey>,
    a: int,
    b: int,
) -> Seq<char>
    decreases b - a,
{
    if a < 0 || a >= b {
        Seq::empty()
    } else {
        let r = row_end(ks, a, a + 1, b);
        if r <= a || r > b {
            Seq::empty()
        } else {
            row_text(enters, closes, start, end, ks, a, r) + rows_text(enters, closes, start, end, ks, r, b)
        }
    }
}

/// The name of a kind of lock.
pub open spec fn kind_name(kind: LockKind) -> Seq<char> {
    match kind {
        LockKind::RwLock => "RwLock"@,
        LockKind::Mutex => "Mutex"@,
    }
}

/// The title of the group of a lock and its guarded type.
pub open spec fn title_text(e: Event) -> Seq<char> {
    "<div class=\"title\">"@ + kind_name(e.lock.spec_kind()) + "&lt;"@ + escaped(e.guarded_type@)
        + "&gt; (lock index: "@ + decimal(e.lock.spec_index() as nat) + ")</div>\n"@
}

/// The groups of `ks` from `a` on, one per lock and guarded type.
pub open spec fn groups_text(
    enters: Seq<Event>,
    closes: Map<usize, u64>,
    start: u64,
    end: u64,
    ks: Seq<RowKey>,
    a: int,
) -> Seq<char>
    decreases ks.len() - a,
{
    if a < 0 || a >= ks.len() {
        Seq::empty()
    } else {
        let g = group_end(ks, a, a + 1, ks.len() as int);
        if g <= a || g > ks.len() {
            Seq::empty()
        } else {
            group_text(enters, closes, start, end, ks, a, g) + groups_text(enters, closes, start, end, ks, g)
        }
    }
}

/// The group of the keys `ks[a..g]`: the title of their lock and guarded
/// type, then their rows.
pub open spec fn group_text(
    enters: Seq<Event>,
    closes: Map<usize, u64>,
    start: u64,
    end: u64,
    ks: Seq<RowKey>,
    a: int,
    g: int,
) -> Seq<char> {
    "<div class=\"lock-instance\">\n"@ + title_text(enters[ks[a].3 as int])
        + "<div class=\"lock-session\">\n"@ + rows_text(enters, closes, start, end, ks, a, g)
        + "</div>\n</div>\n"@
}

/// The whole document: the groups of the root spans laid out by `ks`, in the
/// window from the first enter to the last leave.
pub open spec fn document(enters: Seq<Event>, leaves: Seq<Leave>, ks: Seq<RowKey>, css: Seq<char>, script: Seq<char>) -> Seq<char> {
    let closes = close_map(leaves);
    let start = min_open(enters);
    let end = max_close(leaves);
    "<!DOCTYPE html>\n<html>\n<head>\n<link href=\""@ + css
        + "\" rel=\"stylesheet\">\n</head>\n<body>\n<div id=\"traces\">\n"@ + groups_text(
        enters,
        closes,
        start,
        end,
        ks,
        0,
    ) + "</div>\n<script type=\"text/javascript\" src=\""@ + script
        + "\"></script>\n</body>\n</html>\n"@
}

proof fn lemma_row_end_bounds(ks: Seq<RowKey>, a: int, from: int, bound: int)
    requires
        from <= bound,
    ensures
        from <= row_end(ks, a, from, bound) <= bound,
    decreases bound - from,
{
    if from < bound && same_row(ks[a], ks[from]) {
        lemma_row_end_bounds(ks, a, from + 1, bound);
    }
}

proof fn lemma_group_end_bounds(ks: Seq<RowKey>, a: int, from: int, bound: int)
    requires
        from <= bound,
    ensures
        from <= group_end(ks, a, from, bound) <= bound,
    decreases bound - from,
{
    if from < bound && same_group(ks[a], ks[from]) {
        lemma_group_end_bounds(ks, a, from + 1, bound);
    }
}

proof fn lemma_root_keys_index(enters: Seq<Event>, i: int)
    requires
        0 <= i <= enters.len(),
    ensures
        forall|p: int| 0 <= p < root_keys(enters, i).len() ==> (#[trigger] root_keys(enters, i)[p]).3 < i,
    decreases i,
{
    if i > 0 {
        lemma_root_keys_index(enters, i - 1);
        let prev = root_keys(enters, i - 1);
        assert forall|p: int| 0 <= p < root_keys(enters, i).len() implies (
        #[trigger] root_keys(enters, i)[p]).3 < i by {
            if p < prev.len() {
                assert(root_keys(enters, i)[p] == prev[p]);
            }
        }
    }
}

/// Every key names an enter.
pub open spec fn keys_in(ks: Seq<RowKey>, n: int) -> bool {
    forall|p: int| 0 <= p < ks.len() ==> (#[trigger] ks[p]).3 < n
}

/// The earliest enter and the latest leave.
pub fn window(events: &Events) -> (r: (u64, u64))
    ensures
        r == (min_open(events.enters@), max_close(events.leaves@)),
{
    let mut start: u64 = 0xFFFF_FFFF_FFFF_FFFF;
    let mut i: usize = 0;
    while i < events.enters.len()
        invariant
            i <= events.enters@.len(),
            start == min_open(events.enters@.subrange(0, i as int)),
        decreases events.enters@.len() - i,
    {
        if events.enters[i].timestamp < start {
            start = events.enters[i].timestamp;
        }
        proof {
            assert(events.enters@.subrange(0, i + 1).drop_last() =~= events.enters@.subrange(0, i as int));
        }
        i = i + 1;
    }
    assert(events.enters@.subrange(0, i as int) =~= events.enters@);
    let mut end: u64 = 0;
    let mut j: usize = 0;
    while j < events.leaves.len()
        invariant
            j <= events.leaves@.len(),
            end == max_close(events.leaves@.subrange(0, j as int)),
        decreases events.leaves@.len() - j,
    {
        if events.leaves[j].timestamp > end {
            end = events.leaves[j].timestamp;
        }
        proof {
            assert(events.leaves@.subrange(0, j + 1).drop_last() =~= events.leaves@.subrange(0, j as int));
        }
        j = j + 1;
    }
    assert(events.leaves@.subrange(0, j as int) =~= events.leaves@);
    (start, end)
}

/// The keys of the root spans, in index order.
fn root_keys_of(enters: &Vec<Event>) -> (r: Vec<RowKey>)
    ensures
        r@ == root_keys(enters@, enters@.len() as int),
{
    let mut keys: Vec<RowKey> = Vec::new();
    let mut k: usize = 0;
    while k < enters.len()
        invariant
            k <= enters@.len(),
            keys@ == root_keys(enters@, k as int),
        decreases enters@.len() - k,
    {
        if enters[k].parent.is_none() {
            keys.push((enters[k].lock.raw(), enters[k].guarded_type.clone(), enters[k].thread_index, k));
        }
        k = k + 1;
    }
    keys
}

/// The earliest open of the spans of `ks[a..b]`.
fn row_start_of(enters: &Vec<Event>, ks: &Vec<RowKey>, a: usize, b: usize) -> (r: u64)
    requires
        a <= b <= ks@.len(),
        keys_in(ks@, enters@.len() as int),
    ensures
        r == row_start(enters@, ks@, a as int, b as int),
{
    let mut acc: u64 = 0xFFFF_FFFF_FFFF_FFFF;
    let mut p: usize = a;
    while p < b
        invariant
            a <= p <= b <= ks@.len(),
            keys_in(ks@, enters@.len() as int),
            acc == row_start(enters@, ks@, a as int, p as int),
        decreases b - p,
    {
        let t = enters[ks[p].3].timestamp;
        if t < acc {
            acc = t;
        }
        p = p + 1;
    }
    acc
}

/// The latest close of the spans of `ks[a..b]`.
fn row_finish_of(
    enters: &Vec<Event>,
    closes: &HashMap<usize, u64>,
    ks: &Vec<RowKey>,
    a: usize,
    b: usize,
) -> (r: u64)
    requires
        a <= b <= ks@.len(),
        keys_in(ks@, enters@.len() as int),
    ensures
        r == row_finish(enters@, closes@, ks@, a as int, b as int),
{
    broadcast use vstd::std_specs::hash::group_hash_axioms;

    let mut acc: u64 = 0;
    let mut p: usize = a;
    while p < b
        invariant
            a <= p <= b <= ks@.len(),
            keys_in(ks@, enters@.len() as int),
            acc == row_finish(enters@, closes@, ks@, a as int, p as int),
        decreases b - p,
    {
        if let Some(close) = closes.get(&enters[ks[p].3].id.0) {
            if *close > acc {
                acc = *close;
            }
        }
        p = p + 1;
    }
    acc
}

/// Write one root span: its box to `out`, its detail rows to `d`.
fn write_span(
    out: &mut String,
    d: &mut String,
    enters: &Vec<Event>,
    closes: &HashMap<usize, u64>,
    first_child: &Vec<usize>,
    next_sibling: &Vec<usize>,
    start: u64,
    end: u64,
    k: usize,
)
    requires
        k < enters@.len(),
        links_valid(enters@, first_child@, next_sibling@),
    ensures
        final(out)@ == old(out)@ + span_text(enters@, closes@, start, end, k as int).0,
        final(d)@ == old(d)@ + span_text(enters@, closes@, start, end, k as int).1,
{
    broadcast use vstd::std_specs::hash::group_hash_axioms;

    let ghost own = span_text(enters@, closes@, start, end, k as int);
    if let Some(close) = closes.get(&enters[k].id.0) {
        let close = *close;
        let mut head = String::from_str("<tr data-entry data-entry-start=\"");
        push_decimal(&mut head, enters[k].timestamp);
        head.append("\" data-entry-close=\"");
        push_decimal(&mut head, close);
        head.append("\"><td class=\"title\" colspan=\"6\">Event: ");
        push_decimal(&mut head, enters[k].id.0 as u64);
        head.append("</td></tr>\n");
        d.append(head.as_str());
        if start < end {
            write_section(out, d, enters, closes, first_child, next_sibling, start, end, k);
        } else {
            assert(out@ =~= old(out)@ + own.0);
        }
        assert(d@ =~= old(d)@ + own.1);
    } else {
        assert(out@ =~= old(out)@ + own.0);
        assert(d@ =~= old(d)@ + own.1);
    }
}

/// Write the spans of `ks[a..b]`: boxes to `out`, detail rows to `d`.
fn write_spans(
    out: &mut String,
    d: &mut String,
    enters: &Vec<Event>,
    closes: &HashMap<usize, u64>,
    first_child: &Vec<usize>,
    next_sibling: &Vec<usize>,
    start: u64,
    end: u64,
    ks: &Vec<RowKey>,
    a: usize,
    b: usize,
)
    requires
        a <= b <= ks@.len(),
        keys_in(ks@, enters@.len() as int),
        links_valid(enters@, first_child@, next_sibling@),
    ensures
        final(out)@ == old(out)@ + spans_text(enters@, closes@, start, end, ks@, a as int, b as int).0,
        final(d)@ == old(d)@ + spans_text(enters@, closes@, start, end, ks@, a as int, b as int).1,
{
    broadcast use vstd::std_specs::hash::group_hash_axioms;

    let ghost es = enters@;
    let ghost cs = closes@;
    let mut p: usize = a;
    assert(old(out)@ + Seq::<char>::empty() =~= old(out)@);
    assert(old(d)@ + Seq::<char>::empty() =~= old(d)@);
    while p < b
        invariant
            a <= p <= b <= ks@.len(),
            es == enters@,
            cs == closes@,
            keys_in(ks@, enters@.len() as int),
            links_valid(enters@, first_child@, next_sibling@),
            out@ == old(out)@ + spans_text(es, cs, start, end, ks@, a as int, p as int).0,
            d@ == old(d)@ + spans_text(es, cs, start, end, ks@, a as int, p as int).1,
        decreases b - p,
    {
        let k = ks[p].3;
        let ghost own = span_text(es, cs, start, end, k as int);
        let ghost rest = spans_text(es, cs, start, end, ks@, a as int, p as int);
        write_span(out, d, enters, closes, first_child, next_sibling, start, end, k);
        proof {
            assert(spans_text(es, cs, start, end, ks@, a as int, p + 1) == (rest.0 + own.0, rest.1
                + own.1));
            assert(out@ =~= old(out)@ + (rest.0 + own.0));
            assert(d@ =~= old(d)@ + (rest.1 + own.1));
        }
        p = p + 1;
    }
}

/// Write the timeline of the row `ks[a..b]`.
fn write_row(
    out: &mut String,
    enters: &Vec<Event>,
    closes: &HashMap<usize, u64>,
    first_child: &Vec<usize>,
    next_sibling: &Vec<usize>,
    start: u64,
    end: u64,
    ks: &Vec<RowKey>,
    a: usize,
    b: usize,
)
    requires
        a < b <= ks@.len(),
        keys_in(ks@, enters@.len() as int),
        links_valid(enters@, first_child@, next_sibling@),
    ensures
        final(out)@ == old(out)@ + row_text(enters@, closes@, start, end, ks@, a as int, b as int),
{
    let lock = ks[a].0;
    let thread = ks[a].2;
    let row_start = row_start_of(enters, ks, a, b);
    let row_finish = row_finish_of(enters, closes, ks, a, b);
    let mut spans = String::new();
    let mut details = String::new();
    write_spans(
        &mut spans,
        &mut details,
        enters,
        closes,
        first_child,
        next_sibling,
        start,
        end,
        ks,
        a,
        b,
    );
    assert(spans@ =~= spans_text(enters@, closes@, start, end, ks@, a as int, b as int).0);
    assert(details@ =~= spans_text(enters@, closes@, start, end, ks@, a as int, b as int).1);
    let mut t = String::from_str("<div data-toggle=\"event-");
    push_decimal(&mut t, lock as u64);
    t.append("-");
    push_decimal(&mut t, thread as u64);
    t.append("-details\" data-start=\"");
    push_decimal(&mut t, row_start);
    t.append("\" data-end=\"");
    push_decimal(&mut t, row_finish);
    t.append("\" class=\"timeline\">\n");
    t.append(spans.as_str());
    t.append("<span class=\"section-heading\"><span>");
    push_decimal(&mut t, thread as u64);
    t.append("</span></span>\n<div class=\"timeline-target\"></div>\n</div>\n");
    if details.unicode_len() > 0 {
        let mut table = String::from_str("<table id=\"event-");
        push_decimal(&mut table, lock as u64);
        table.append("-");
        push_decimal(&mut table, thread as u64);
        table.append("-details\" class=\"details\">\n");
        table.append(details.as_str());
        table.append("</table>\n");
        t.append(table.as_str());
    } else {
        assert(t@ =~= t@ + details_table(lock as nat, thread as nat, details@));
    }
    out.append(t.as_str());
}

fn kind_str(kind: LockKind) -> (r: &'static str)
    ensures
        r@ == kind_name(kind),
{
    match kind {
        LockKind::RwLock => "RwLock",
        LockKind::Mutex => "Mutex",
    }
}

fn push_title(out: &mut String, e: &Event)
    ensures
        final(out)@ == old(out)@ + title_text(*e),
{
    let mut t = String::from_str("<div class=\"title\">");
    t.append(kind_str(e.lock.kind()));
    t.append("&lt;");
    push_escaped(&mut t, e.guarded_type.as_str());
    t.append("&gt; (lock index: ");
    push_decimal(&mut t, e.lock.index() as u64);
    t.append(")</div>\n");
    out.append(t.as_str());
}

/// Write the group of the keys `ks[a..g]`.
fn write_group(
    out: &mut String,
    enters: &Vec<Event>,
    closes: &HashMap<usize, u64>,
    first_child: &Vec<usize>,
    next_sibling: &Vec<usize>,
    start: u64,
    end: u64,
    ks: &Vec<RowKey>,
    a: usize,
    g: usize,
)
    requires
        a < g <= ks@.len(),
        keys_in(ks@, enters@.len() as int),
        links_valid(enters@, first_child@, next_sibling@),
    ensures
        final(out)@ == old(out)@ + group_text(enters@, closes@, start, end, ks@, a as int, g as int),
{
    let ghost es = enters@;
    let ghost cs = closes@;
    let mut rows = String::new();
    let mut r: usize = a;
    assert(rows@ + rows_text(es, cs, start, end, ks@, a as int, g as int) =~= rows_text(
        es,
        cs,
        start,
        end,
        ks@,
        a as int,
        g as int,
    ));
    while r < g
        invariant
            a <= r <= g <= ks@.len(),
            es == enters@,
            cs == closes@,
            keys_in(ks@, enters@.len() as int),
            links_valid(enters@, first_child@, next_sibling@),
            rows@ + rows_text(es, cs, start, end, ks@, r as int, g as int) =~= rows_text(
                es,
                cs,
                start,
                end,
                ks@,
                a as int,
                g as int,
            ),
        decreases g - r,
    {
        let mut re: usize = r + 1;
        while re < g && ks[r].0 == ks[re].0 && ks[r].2 == ks[re].2 && ks[r].1 == ks[re].1
            invariant
                r < re <= g <= ks@.len(),
                row_end(ks@, r as int, r + 1, g as int) == row_end(ks@, r as int, re as int, g as int),
            decreases g - re,
        {
            re = re + 1;
        }
        let ghost before = rows@;
        write_row(&mut rows, enters, closes, first_child, next_sibling, start, end, ks, r, re);
        proof {
            lemma_row_end_bounds(ks@, r as int, r + 1, g as int);
            let row = row_text(es, cs, start, end, ks@, r as int, re as int);
            let rest = rows_text(es, cs, start, end, ks@, re as int, g as int);
            assert(rows_text(es, cs, start, end, ks@, r as int, g as int) == row + rest);
            assert(rows@ + rest =~= before + (row + rest));
        }
        r = re;
    }
    assert(rows_text(es, cs, start, end, ks@, r as int, g as int) =~= Seq::<char>::empty());
    let mut t = String::from_str("<div class=\"lock-instance\">\n");
    push_title(&mut t, &enters[ks[a].3]);
    t.append("<div class=\"lock-session\">\n");
    t.append(rows.as_str());
    t.append("</div>\n</div>\n");
    out.append(t.as_str());
}

/// Lay the events out as a document that links the stylesheet `css` and the
/// script `script`.
///
/// The window runs from the earliest enter to the latest leave. Root spans
/// (those without a parent) are grouped by lock and guarded type, then by
/// thread, ordered by the packed lock identifier, the text of the guarded
/// type, the thread index and the index of the enter. Each span
/// that was left becomes a box placed in proportion to the window, followed
/// by the spans nested under it; a span never left is skipped, and where the
/// window is empty no boxes are drawn. With no enters or no leaves, the
/// document is empty.
pub fn render(events: &Events, css: &str, script: &str) -> (r: String)
    ensures
        events.enters@.len() == 0 || events.leaves@.len() == 0 ==> r@ == Seq::<char>::empty(),
        events.enters@.len() > 0 && events.leaves@.len() > 0 ==> exists|ks: Seq<RowKey>|
            #![trigger document(events.enters@, events.leaves@, ks, css@, script@)]
            keys_sorted(ks) && ks.to_multiset() == root_keys(
                events.enters@,
                events.enters@.len() as int,
            ).to_multiset() && r@ == document(events.enters@, events.leaves@, ks, css@, script@),
{
    broadcast use vstd::seq_lib::group_to_multiset_ensures;

    if events.enters.len() == 0 || events.leaves.len() == 0 {
        return String::new();
    }
    let (start, end) = window(events);
    let closes = closes_of(&events.leaves);
    let (first_child, next_sibling) = link_children(&events.enters);
    let mut keys = root_keys_of(&events.enters);
    let ghost unsorted = keys@;
    sort_keys(&mut keys);
    let ghost es = events.enters@;
    let ghost cs = closes@;
    let n = keys.len();
    proof {
        lemma_root_keys_index(es, es.len() as int);
        assert forall|p: int| 0 <= p < keys@.len() implies (#[trigger] keys@[p]).3 < es.len() by {
            assert(keys@.contains(keys@[p]));
            assert(keys@.to_multiset().count(keys@[p]) > 0);
            assert(unsorted.to_multiset().count(keys@[p]) > 0);
            assert(unsorted.contains(keys@[p]));
            let q = choose|q: int| 0 <= q < unsorted.len() && unsorted[q] == keys@[p];
            assert(unsorted[q].3 < es.len());
        }
    }
    let mut groups = String::new();
    let mut a: usize = 0;
    assert(groups@ + groups_text(es, cs, start, end, keys@, 0) =~= groups_text(
        es,
        cs,
        start,
        end,
        keys@,
        0,
    ));
    while a < n
        invariant
            a <= n == keys@.len(),
            es == events.enters@,
            cs == closes@,
            keys_in(keys@, es.len() as int),
            links_valid(es, first_child@, next_sibling@),
            groups@ + groups_text(es, cs, start, end, keys@, a as int) =~= groups_text(
                es,
                cs,
                start,
                end,
                keys@,
                0,
            ),
        decreases n - a,
    {
        let mut g: usize = a + 1;
        while g < n && keys[a].0 == keys[g].0 && keys[a].1 == keys[g].1
            invariant
                a < g <= n == keys@.len(),
                group_end(keys@, a as int, a + 1, n as int) == group_end(
                    keys@,
                    a as int,
                    g as int,
                    n as int,
                ),
            decreases n - g,
        {
            g = g + 1;
        }
        let ghost before = groups@;
        write_group(
            &mut groups,
            &events.enters,
            &closes,
            &first_child,
            &next_sibling,
            start,
            end,
            &keys,
            a,
            g,
        );
        proof {
            lemma_group_end_bounds(keys@, a as int, a + 1, n as int);
            let own = group_text(es, cs, start, end, keys@, a as int, g as int);
            let rest = groups_text(es, cs, start, end, keys@, g as int);
            assert(groups_text(es, cs, start, end, keys@, a as int) == own + rest);
            assert(groups@ + rest =~= before + (own + rest));
        }
        a = g;
    }
    assert(groups_text(es, cs, start, end, keys@, a as int) =~= Seq::<char>::empty());
    let mut t = String::from_str("<!DOCTYPE html>\n<html>\n<head>\n<link href=\"");
    t.append(css);
    t.append("\" rel=\"stylesheet\">\n</head>\n<body>\n<div id=\"traces\">\n");
    t.append(groups.as_str());
    t.append("</div>\n<script type=\"text/javascript\" src=\"");
    t.append(script);
    t.append("\"></script>\n</body>\n</html>\n");
    assert(t@ == document(es, events.leaves@, keys@, css@, script@));
    t
}

/// A span that closes the instant it opens, inside a non-empty window, is
/// still drawn: its box is there, with a width of zero percent.
pub proof fn lemma_zero_length_span_drawn(
    enters: Seq<Event>,
    closes: Map<usize, u64>,
    start: u64,
    end: u64,
    i: int,
)
    requires
        start < end,
        0 <= i < enters.len(),
        closes.contains_key(enters[i].id.0),
        closes[enters[i].id.0] == enters[i].timestamp,
    ensures
        clamped_percent(closes[enters[i].id.0] - enters[i].timestamp, (end - start) as nat) == 0,
        section_text(enters, closes, start, end, i).0.len() > 0,
        section_text(enters, closes, start, end, i).0.subrange(
            0,
            section_div(enters[i], closes[enters[i].id.0], start, end).len() as int,
        ) == section_div(enters[i], closes[enters[i].id.0], start, end),
{
    let total = (end - start) as nat;
    assert(percent_of(0, total) == 0) by (nonlinear_arith)
        requires
            total > 0,
    ;
    let div = section_div(enters[i], closes[enters[i].id.0], start, end);
    let kids = children_text(enters, closes, start, end, i, i + 1);
    assert((div + kids.0).subrange(0, div.len() as int) =~= div);
    assert(div.len() > 0);
}

/// A window with no length (every timestamp the same instant) draws no
/// boxes: nothing is divided by its length.
pub proof fn lemma_empty_window_draws_no_boxes(
    enters: Seq<Event>,
    closes: Map<usize, u64>,
    start: u64,
    end: u64,
    ks: Seq<RowKey>,
    a: int,
    b: int,
)
    requires
        start >= end,
    ensures
        spans_text(enters, closes, start, end, ks, a, b).0 == Seq::<char>::empty(),
    decreases b - a,
{
    if b > a {
        lemma_empty_window_draws_no_boxes(enters, closes, start, end, ks, a, b - 1);
        assert(spans_text(enters, closes, start, end, ks, a, b).0 =~= Seq::<char>::empty());
    }
}

} // verus!
