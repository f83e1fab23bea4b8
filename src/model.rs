//! The mathematical model of a span list: the style of every character.
use vstd::prelude::*;

use crate::format::{FormatView, Style};
use crate::span::SpanView;

verus! {

/// The sum of the lengths of the spans.
pub open spec fn total(s: Seq<SpanView>) -> nat
    decreases s.len(),
{
    if s.len() == 0 {
        0
    } else {
        total(s.drop_last()) + s.last().len
    }
}

/// The position at which span `i` starts.
pub open spec fn start(s: Seq<SpanView>, i: int) -> nat {
    total(s.take(i))
}

/// `n` copies of one style.
pub open spec fn repeat(st: Style, n: nat) -> Seq<Style> {
    Seq::new(n, |k: int| st)
}

/// The style of each character covered by the spans, in order.
pub open spec fn flatten(s: Seq<SpanView>) -> Seq<Style>
    decreases s.len(),
{
    if s.len() == 0 {
        Seq::empty()
    } else {
        flatten(s.drop_last()) + repeat(s.last().style, s.last().len)
    }
}

/// The per-character styles cut or extended to `n` characters; characters
/// beyond the end get style `d`.
pub open spec fn fit(x: Seq<Style>, n: nat, d: Style) -> Seq<Style> {
    if n <= x.len() {
        x.take(n as int)
    } else {
        x + repeat(d, (n - x.len()) as nat)
    }
}

/// The invariants of a span list over a text of `n` characters: the list is
/// not empty, its lengths sum to `n`, no span is empty unless it is the only
/// one and the text is empty, and no two neighbours share a style.
pub open spec fn normalized(s: Seq<SpanView>, n: nat) -> bool {
    &&& s.len() > 0
    &&& total(s) == n
    &&& n == 0 ==> s.len() == 1
    &&& n > 0 ==> forall|i: int| 0 <= i < s.len() ==> #[trigger] s[i].len > 0
    &&& forall|i: int| #![trigger s[i].style, s[i + 1].style] 0 <= i < s.len() - 1 ==> s[i].style != s[i + 1].style
}

/// Span `i` is not empty and starts at `pos`.
pub open spec fn is_break(s: Seq<SpanView>, i: int, pos: int) -> bool {
    0 <= i < s.len() && start(s, i) == pos && s[i].len > 0
}

/// Span `i` covers position `pos`.
pub open spec fn covers(s: Seq<SpanView>, i: int, pos: int) -> bool {
    0 <= i < s.len() && start(s, i) <= pos < start(s, i) + s[i].len
}

pub proof fn lemma_flatten_len(s: Seq<SpanView>)
    ensures
        flatten(s).len() == total(s),
    decreases s.len(),
{
    if s.len() > 0 {
        lemma_flatten_len(s.drop_last());
    }
}

pub proof fn lemma_flatten_concat(a: Seq<SpanView>, b: Seq<SpanView>)
    ensures
        flatten(a + b) == flatten(a) + flatten(b),
        total(a + b) == total(a) + total(b),
    decreases b.len(),
{
    if b.len() == 0 {
        assert(a + b =~= a);
        assert(flatten(a) + flatten(b) =~= flatten(a));
    } else {
        assert((a + b).drop_last() =~= a + b.drop_last());
        lemma_flatten_concat(a, b.drop_last());
        assert(flatten(a + b) =~= flatten(a) + flatten(b));
    }
}

pub proof fn lemma_flatten_single(x: SpanView)
    ensures
        flatten(seq![x]) == repeat(x.style, x.len),
        total(seq![x]) == x.len,
{
    let e = Seq::<SpanView>::empty();
    assert(seq![x].drop_last() =~= e);
    assert(total(e) == 0);
    assert(flatten(e) == Seq::<Style>::empty());
    assert(seq![x].last() == x);
    assert(flatten(seq![x]) =~= repeat(x.style, x.len));
}

/// A list split at index `i`, viewed as three parts.
pub proof fn lemma_flatten_split(s: Seq<SpanView>, i: int)
    requires
        0 <= i < s.len(),
    ensures
        flatten(s) == flatten(s.take(i)) + repeat(s[i].style, s[i].len) + flatten(s.skip(i + 1)),
        total(s) == total(s.take(i)) + s[i].len + total(s.skip(i + 1)),
{
    assert(s =~= s.take(i) + seq![s[i]] + s.skip(i + 1));
    lemma_flatten_concat(s.take(i) + seq![s[i]], s.skip(i + 1));
    lemma_flatten_concat(s.take(i), seq![s[i]]);
    lemma_flatten_single(s[i]);
}

pub proof fn lemma_start_next(s: Seq<SpanView>, i: int)
    requires
        0 <= i < s.len(),
    ensures
        start(s, i + 1) == start(s, i) + s[i].len,
{
    assert(s.take(i + 1).drop_last() =~= s.take(i));
}

pub proof fn lemma_start_mono(s: Seq<SpanView>, i: int, j: int)
    requires
        0 <= i <= j <= s.len(),
    ensures
        start(s, i) <= start(s, j),
    decreases j - i,
{
    if i < j {
        lemma_start_next(s, j - 1);
        lemma_start_mono(s, i, j - 1);
    }
}

pub proof fn lemma_start_le_total(s: Seq<SpanView>, j: int)
    requires
        0 <= j <= s.len(),
    ensures
        start(s, j) <= total(s),
        start(s, s.len() as int) == total(s),
{
    assert(s.take(s.len() as int) =~= s);
    lemma_start_mono(s, j, s.len() as int);
}

/// One span's length never exceeds the total.
pub proof fn lemma_len_le_total(s: Seq<SpanView>, i: int)
    requires
        0 <= i < s.len(),
    ensures
        start(s, i) + s[i].len <= total(s),
{
    lemma_start_next(s, i);
    lemma_start_le_total(s, i + 1);
}

/// Two spans that both start at `pos` and are not empty are the same span.
pub proof fn lemma_break_unique(s: Seq<SpanView>, i: int, j: int, pos: int)
    requires
        is_break(s, i, pos),
        is_break(s, j, pos),
    ensures
        i == j,
{
    if i < j {
        lemma_start_next(s, i);
        lemma_start_mono(s, i + 1, j);
    } else if j < i {
        lemma_start_next(s, j);
        lemma_start_mono(s, j + 1, i);
    }
}

/// Two spans that both cover `pos` are the same span.
pub proof fn lemma_covers_unique(s: Seq<SpanView>, i: int, j: int, pos: int)
    requires
        covers(s, i, pos),
        covers(s, j, pos),
    ensures
        i == j,
{
    if i < j {
        lemma_start_next(s, i);
        lemma_start_mono(s, i + 1, j);
    } else if j < i {
        lemma_start_next(s, j);
        lemma_start_mono(s, j + 1, i);
    }
}


/// The list with span `c` cut in two after `off` characters.
pub open spec fn split_spans(s: Seq<SpanView>, c: int, off: nat) -> Seq<SpanView> {
    s.take(c) + seq![
        SpanView { len: off, style: s[c].style },
        SpanView { len: (s[c].len - off) as nat, style: s[c].style },
    ] + s.skip(c + 1)
}

/// The index of the span that covers `pos`.
pub open spec fn locate(s: Seq<SpanView>, pos: int) -> int {
    choose|i: int| covers(s, i, pos)
}

pub proof fn lemma_locate(s: Seq<SpanView>, i: int, pos: int)
    requires
        covers(s, i, pos),
    ensures
        locate(s, pos) == i,
{
    lemma_covers_unique(s, i, locate(s, pos), pos);
}

pub proof fn lemma_repeat_concat(st: Style, a: nat, b: nat)
    ensures
        repeat(st, a) + repeat(st, b) == repeat(st, a + b),
{
    assert(repeat(st, a) + repeat(st, b) =~= repeat(st, a + b));
}

pub proof fn lemma_split_spans(s: Seq<SpanView>, c: int, off: nat)
    requires
        0 <= c < s.len(),
        0 < off < s[c].len,
    ensures
        flatten(split_spans(s, c, off)) == flatten(s),
        total(split_spans(s, c, off)) == total(s),
        split_spans(s, c, off).len() == s.len() + 1,
        start(split_spans(s, c, off), c) == start(s, c),
        start(split_spans(s, c, off), c + 1) == start(s, c) + off,
{
    let n = split_spans(s, c, off);
    let p1 = SpanView { len: off, style: s[c].style };
    let p2 = SpanView { len: (s[c].len - off) as nat, style: s[c].style };
    lemma_flatten_split(s, c);
    lemma_flatten_concat(s.take(c) + seq![p1, p2], s.skip(c + 1));
    lemma_flatten_concat(s.take(c), seq![p1, p2]);
    assert(seq![p1, p2] =~= seq![p1] + seq![p2]);
    lemma_flatten_concat(seq![p1], seq![p2]);
    lemma_flatten_single(p1);
    lemma_flatten_single(p2);
    lemma_repeat_concat(s[c].style, off, (s[c].len - off) as nat);
    assert(n.take(c) =~= s.take(c));
    assert(n[c] == p1);
    lemma_start_next(n, c);
}

/// A span that starts at `x` still starts at `x`, at a shifted index when
/// it lies after the cut, once some span is cut at another position.
pub proof fn lemma_break_kept(s: Seq<SpanView>, c: int, off: nat, i: int, x: int)
    requires
        0 <= c < s.len(),
        0 < off < s[c].len,
        is_break(s, i, x),
        x != start(s, c) + off,
    ensures
        i <= c ==> is_break(split_spans(s, c, off), i, x),
        i > c ==> is_break(split_spans(s, c, off), i + 1, x),
{
    let n = split_spans(s, c, off);
    lemma_split_spans(s, c, off);
    if i < c {
        assert(n.take(i) =~= s.take(i));
    } else if i > c {
        assert(n.take(i + 1) =~= split_spans(s.take(i), c, off));
        lemma_split_spans(s.take(i), c, off);
        assert(s.take(i).take(i) =~= s.take(i));
        assert(n.take(i + 1).take(i + 1) =~= n.take(i + 1));
        assert(start(n, i + 1) == total(n.take(i + 1)));
        assert(n[i + 1] == s[i]);
    }
}


/// The list with span `i + 1` absorbed into span `i`.
pub open spec fn merge_pair(s: Seq<SpanView>, i: int) -> Seq<SpanView> {
    s.take(i) + seq![SpanView { len: s[i].len + s[i + 1].len, style: s[i].style }] + s.skip(i + 2)
}

pub proof fn lemma_merge_pair(s: Seq<SpanView>, i: int)
    requires
        0 <= i,
        i + 1 < s.len(),
        s[i].style == s[i + 1].style || s[i + 1].len == 0,
    ensures
        flatten(merge_pair(s, i)) == flatten(s),
        total(merge_pair(s, i)) == total(s),
        s[i].len + s[i + 1].len <= total(s),
{
    let m = SpanView { len: s[i].len + s[i + 1].len, style: s[i].style };
    assert(s =~= s.take(i) + (seq![s[i], s[i + 1]] + s.skip(i + 2)));
    lemma_flatten_concat(s.take(i), seq![s[i], s[i + 1]] + s.skip(i + 2));
    lemma_flatten_concat(seq![s[i], s[i + 1]], s.skip(i + 2));
    assert(seq![s[i], s[i + 1]] =~= seq![s[i]] + seq![s[i + 1]]);
    lemma_flatten_concat(seq![s[i]], seq![s[i + 1]]);
    lemma_flatten_single(s[i]);
    lemma_flatten_single(s[i + 1]);
    lemma_flatten_concat(s.take(i) + seq![m], s.skip(i + 2));
    lemma_flatten_concat(s.take(i), seq![m]);
    lemma_flatten_single(m);
    if s[i + 1].len == 0 {
        assert(repeat(s[i + 1].style, 0) =~= Seq::<Style>::empty());
        assert(repeat(s[i].style, s[i].len) + repeat(s[i + 1].style, 0) =~= repeat(
            s[i].style,
            s[i].len,
        ));
    } else {
        lemma_repeat_concat(s[i].style, s[i].len, s[i + 1].len);
    }
    assert(merge_pair(s, i) =~= (s.take(i) + seq![m]) + s.skip(i + 2));
    assert(flatten(merge_pair(s, i)) =~= flatten(s));
    lemma_flatten_len(s);
    lemma_flatten_len(s.take(i));
    lemma_flatten_len(s.skip(i + 2));
}

pub proof fn lemma_drop_first_empty(s: Seq<SpanView>)
    requires
        s.len() > 0,
        s[0].len == 0,
    ensures
        flatten(s.skip(1)) == flatten(s),
        total(s.skip(1)) == total(s),
{
    lemma_flatten_split(s, 0);
    assert(s.take(0) =~= Seq::<SpanView>::empty());
    assert(total(Seq::<SpanView>::empty()) == 0);
    assert(flatten(Seq::<SpanView>::empty()) == Seq::<Style>::empty());
    assert(repeat(s[0].style, 0) =~= Seq::<Style>::empty());
    assert(flatten(s) =~= flatten(s.skip(1)));
}

pub proof fn lemma_shrink_last(s: Seq<SpanView>, d: nat)
    requires
        s.len() > 0,
        d <= s.last().len,
    ensures
        flatten(s.update(s.len() - 1, SpanView { len: (s.last().len - d) as nat, style: s.last().style }))
            == flatten(s).take(total(s) - d),
        total(s.update(s.len() - 1, SpanView { len: (s.last().len - d) as nat, style: s.last().style }))
            == total(s) - d,
{
    let u = s.update(s.len() - 1, SpanView { len: (s.last().len - d) as nat, style: s.last().style });
    assert(u.drop_last() =~= s.drop_last());
    lemma_flatten_len(s.drop_last());
    assert(flatten(u) =~= flatten(s).take(total(s) - d));
}

pub proof fn lemma_drop_last(s: Seq<SpanView>)
    requires
        s.len() > 0,
    ensures
        flatten(s.drop_last()) == flatten(s).take(total(s.drop_last()) as int),
{
    lemma_flatten_len(s.drop_last());
    assert(flatten(s.drop_last()) =~= flatten(s).take(total(s.drop_last()) as int));
}


/// The invariants that every public operation keeps: the list is not empty,
/// its lengths sum to `n`, which fits a `usize`, and no span is empty unless
/// the text is, in which case there is exactly one span.
pub open spec fn well_formed(s: Seq<SpanView>, n: nat) -> bool {
    &&& s.len() > 0
    &&& total(s) == n
    &&& n <= usize::MAX
    &&& n == 0 ==> s.len() == 1
    &&& n > 0 ==> forall|i: int| 0 <= i < s.len() ==> #[trigger] s[i].len > 0
}

/// Spans `a` up to `b` (exclusive) with `f` applied to their styles.
pub open spec fn restyle(s: Seq<SpanView>, a: int, b: int, f: FormatView) -> Seq<SpanView> {
    Seq::new(
        s.len(),
        |i: int|
            if a <= i < b {
                SpanView { len: s[i].len, style: s[i].style.with(f) }
            } else {
                s[i]
            },
    )
}

/// The span indices `[a, b)` that cover the characters `[from, to)`,
/// possibly reaching past both ends: `a` is the span covering `from`, or the
/// first span when `from` is past the end; `b` is one past the span covering
/// `to - 1` (or `0` when `to` is `0`), or the span count when that is past
/// the end.
pub open spec fn bounds(s: Seq<SpanView>, from: int, to: int) -> (int, int) {
    let last = if to == 0 {
        0
    } else {
        to - 1
    };
    let a = if from < total(s) {
        locate(s, from)
    } else {
        0
    };
    let b = if last < total(s) {
        locate(s, last) + 1
    } else {
        s.len() as int
    };
    (a, b)
}

/// The characters `[lo, hi)` whose spans a format applied over `[from, to)`
/// reaches once span breaks exist at `from` and at `to`. A `from` past the
/// end reaches back to the start; a `to` of `0` reaches to the end of the
/// first span.
pub open spec fn reach(s: Seq<SpanView>, from: int, to: int) -> (int, int) {
    let n = total(s) as int;
    let lo = if from < n {
        from
    } else {
        0
    };
    let hi = if n == 0 {
        0
    } else if to == 0 {
        if 0 < from < s[0].len {
            from
        } else {
            s[0].len as int
        }
    } else if to <= n {
        to
    } else {
        n
    };
    (lo, hi)
}

/// The per-character styles with `f` applied to the characters `[lo, hi)`.
pub open spec fn restyled(x: Seq<Style>, lo: int, hi: int, f: FormatView) -> Seq<Style> {
    Seq::new(x.len(), |k: int| if lo <= k < hi { x[k].with(f) } else { x[k] })
}

pub proof fn lemma_flatten_take_skip(s: Seq<SpanView>, a: int)
    requires
        0 <= a <= s.len(),
    ensures
        flatten(s.take(a)) == flatten(s).take(start(s, a) as int),
        flatten(s.skip(a)) == flatten(s).skip(start(s, a) as int),
        start(s, a) <= total(s),
{
    assert(s =~= s.take(a) + s.skip(a));
    lemma_flatten_concat(s.take(a), s.skip(a));
    lemma_flatten_len(s.take(a));
    lemma_start_le_total(s, a);
    assert(flatten(s.take(a)) =~= flatten(s).take(start(s, a) as int));
    assert(flatten(s.skip(a)) =~= flatten(s).skip(start(s, a) as int));
}

pub proof fn lemma_covers_style(s: Seq<SpanView>, i: int, x: int)
    requires
        covers(s, i, x),
    ensures
        flatten(s)[x] == s[i].style,
        0 <= x < flatten(s).len(),
{
    lemma_flatten_split(s, i);
    lemma_flatten_len(s.take(i));
    lemma_flatten_len(s);
}

pub proof fn lemma_restyle(s: Seq<SpanView>, a: int, b: int, f: FormatView)
    requires
        0 <= a <= b <= s.len(),
    ensures
        flatten(restyle(s, a, b, f)) == restyled(
            flatten(s),
            start(s, a) as int,
            start(s, b) as int,
            f,
        ),
        total(restyle(s, a, b, f)) == total(s),
    decreases s.len(),
{
    let r = restyle(s, a, b, f);
    lemma_flatten_len(s);
    if s.len() == 0 {
        assert(flatten(r) =~= restyled(flatten(s), start(s, a) as int, start(s, b) as int, f));
    } else {
        let l = s.len() - 1;
        let d = s.drop_last();
        let a2 = if a > l { l } else { a };
        let b2 = if b > l { l } else { b };
        lemma_restyle(d, a2, b2, f);
        assert(r.drop_last() =~= restyle(d, a2, b2, f));
        assert(d.take(a2) =~= s.take(a2));
        assert(d.take(b2) =~= s.take(b2));
        lemma_flatten_len(d);
        lemma_start_next(s, l);
        assert(s.take(l) =~= d);
        lemma_start_mono(s, a2, l);
        lemma_start_mono(s, b2, l);
        lemma_start_le_total(s, b);
        lemma_start_le_total(s, a);
        if a > l {
            assert(s.take(a) =~= s);
        }
        if b > l {
            assert(s.take(b) =~= s);
        }
        if a <= l < b {
            lemma_start_mono(s, a, l);
            lemma_start_mono(s, l + 1, b);
        }
        if b <= l {
            lemma_start_mono(s, b, l);
        }
        let x = restyled(flatten(s), start(s, a) as int, start(s, b) as int, f);
        assert forall|k: int| 0 <= k < flatten(r).len() implies flatten(r)[k] == x[k] by {
            if k < total(d) {
                assert(flatten(r)[k] == flatten(restyle(d, a2, b2, f))[k]);
                assert(flatten(s)[k] == flatten(d)[k]);
            } else {
                assert(flatten(r)[k] == r.last().style);
                assert(flatten(s)[k] == s.last().style);
            }
        }
        assert(flatten(r) =~= x);
    }
}


/// The attributes on which all spans `a` up to `b` (exclusive) agree, with
/// span `a` always taken in.
pub open spec fn common_of(s: Seq<SpanView>, a: int, b: int) -> FormatView
    decreases b - a,
{
    if b <= a + 1 {
        s[a].style.resolved()
    } else {
        common_of(s, a, b - 1).common(s[b - 1].style.resolved())
    }
}

pub proof fn lemma_split_well_formed(s: Seq<SpanView>, c: int, off: nat, n: nat)
    requires
        well_formed(s, n),
        0 <= c < s.len(),
        0 < off < s[c].len,
    ensures
        well_formed(split_spans(s, c, off), n),
{
    let m = split_spans(s, c, off);
    lemma_split_spans(s, c, off);
    assert forall|i: int| 0 <= i < m.len() implies #[trigger] m[i].len > 0 by {
        if i < c {
            assert(m[i] == s[i]);
        } else if i > c + 1 {
            assert(m[i] == s[i - 1]);
        }
    }
}


/// `m` is `o` after a break was ensured at `pos`, with result `r`.
pub open spec fn broke(o: Seq<SpanView>, m: Seq<SpanView>, pos: int, r: Option<usize>) -> bool {
    &&& flatten(m) == flatten(o)
    &&& total(m) == total(o)
    &&& pos >= total(o) ==> r is None && m == o
    &&& pos < total(o) ==> r is Some && is_break(m, r->0 as int, pos)
    &&& r is Some ==> m == o || (r->0 >= 1 && covers(o, r->0 - 1, pos) && start(o, r->0 - 1)
        < pos && m == split_spans(o, r->0 - 1, (pos - start(o, r->0 - 1)) as nat))
    &&& forall|i: int| is_break(o, i, pos) ==> m == o && r == Some(i as usize)
}

pub proof fn lemma_broke_well_formed(o: Seq<SpanView>, m: Seq<SpanView>, pos: int, r: Option<usize>, n: nat)
    requires
        broke(o, m, pos, r),
        well_formed(o, n),
    ensures
        well_formed(m, n),
{
    if r is Some && m != o {
        lemma_split_well_formed(o, r->0 - 1, (pos - start(o, r->0 - 1)) as nat, n);
    }
}

proof fn lemma_start_zero(s: Seq<SpanView>)
    ensures
        start(s, 0) == 0,
{
    assert(s.take(0) =~= Seq::<SpanView>::empty());
}

/// A break at `x` survives a break ensured at another position.
pub proof fn lemma_broke_keeps(o: Seq<SpanView>, m: Seq<SpanView>, pos: int, r: Option<usize>, j: int, x: int) -> (k: int)
    requires
        broke(o, m, pos, r),
        is_break(o, j, x),
        x != pos,
    ensures
        is_break(m, k, x),
{
    if r is Some && m != o {
        let c = r->0 - 1;
        lemma_break_kept(o, c, (pos - start(o, c)) as nat, j, x);
        if j <= c {
            j
        } else {
            j + 1
        }
    } else {
        j
    }
}

/// The length of the first span once a break is ensured at `from`.
pub proof fn lemma_broke_first(o: Seq<SpanView>, m: Seq<SpanView>, from: int, r: Option<usize>, n: nat)
    requires
        broke(o, m, from, r),
        well_formed(o, n),
        n > 0,
        from >= 0,
    ensures
        m[0].len == (if 0 < from < o[0].len {
            from
        } else {
            o[0].len as int
        }),
{
    lemma_start_zero(o);
    lemma_start_next(o, 0);
    lemma_len_le_total(o, 0);
    if r is Some && m != o {
        let c = r->0 - 1;
        if c > 0 {
            lemma_start_mono(o, 1, c);
            assert(m[0] == o.take(c)[0]);
        }
    } else if 0 < from < o[0].len {
        assert(covers(o, 0, from));
        assert(is_break(m, r->0 as int, from));
        lemma_covers_unique(o, 0, r->0 as int, from);
    }
}

/// The span that covers `to - 1` ends at `to` when a span starts at `to`.
pub proof fn lemma_end_at_break(s: Seq<SpanView>, j: int, c: int, to: int)
    requires
        is_break(s, j, to),
        covers(s, c, to - 1),
    ensures
        start(s, c + 1) == to,
{
    lemma_start_next(s, c);
    if start(s, c) + s[c].len > to {
        assert(covers(s, j, to));
        assert(covers(s, c, to));
        lemma_covers_unique(s, j, c, to);
    }
}

/// The characters that spans `[a, b)` cover, where `a` and `b` are the
/// boundaries of `[from, to)` once breaks were ensured at `from` and `to`.
pub proof fn lemma_reach(
    s0: Seq<SpanView>,
    s1: Seq<SpanView>,
    s2: Seq<SpanView>,
    from: int,
    to: int,
    r1: Option<usize>,
    r2: Option<usize>,
    n: nat,
    a: int,
    b: int,
)
    requires
        well_formed(s0, n),
        broke(s0, s1, from, r1),
        broke(s1, s2, to, r2),
        from >= 0,
        to >= 0,
        a == bounds(s2, from, to).0,
        b == bounds(s2, from, to).1,
        from < n ==> covers(s2, a, from),
        (if to == 0 { 0 } else { to - 1 }) < n ==> covers(s2, b - 1, if to == 0 { 0 } else { to - 1 }),
        0 <= a < s2.len(),
        0 <= b <= s2.len(),
    ensures
        well_formed(s2, n),
        flatten(s2) == flatten(s0),
        start(s2, a) == reach(s0, from, to).0,
        start(s2, b) == reach(s0, from, to).1,
        a > b ==> reach(s0, from, to).0 >= reach(s0, from, to).1,
        b < s2.len() <==> reach(s0, from, to).1 < n,
        reach(s0, from, to).1 < n ==> covers(s2, b, reach(s0, from, to).1),
{
    lemma_broke_well_formed(s0, s1, from, r1, n);
    lemma_broke_well_formed(s1, s2, to, r2, n);
    lemma_start_zero(s2);
    lemma_start_le_total(s2, b);
    let lo = reach(s0, from, to).0;
    let hi = reach(s0, from, to).1;
    let last = if to == 0 {
        0
    } else {
        to - 1
    };
    if n == 0 {
        assert(s1 == s0);
        assert(s2 == s1);
    } else {
        if from < n {
            let k = if to == from {
                r1->0 as int
            } else {
                lemma_broke_keeps(s1, s2, to, r2, r1->0 as int, from)
            };
            assert(is_break(s2, k, from));
            lemma_covers_unique(s2, a, k, from);
        }
        if last < n {
            if to == 0 {
                lemma_start_next(s2, 0);
                assert(covers(s2, 0, 0));
                lemma_covers_unique(s2, 0, b - 1, 0);
                lemma_start_zero(s1);
                assert(is_break(s1, 0, 0));
                lemma_broke_first(s0, s1, from, r1, n);
            } else if to < n {
                lemma_end_at_break(s2, r2->0 as int, b - 1, to);
            } else {
                lemma_start_next(s2, b - 1);
                lemma_len_le_total(s2, b - 1);
            }
        }
        if b < s2.len() {
            lemma_len_le_total(s2, b);
            lemma_start_next(s2, b);
        }
    }
    if a > b {
        lemma_start_mono(s2, b, a);
    }
}


/// `t` with the characters `[from, to)` replaced by `w`; a bound past the
/// end stands for the end.
pub open spec fn spliced(t: Seq<char>, from: int, to: int, w: Seq<char>) -> Seq<char> {
    let head = if from <= t.len() {
        t.take(from)
    } else {
        t
    };
    let tail = if to <= t.len() {
        t.skip(to)
    } else {
        Seq::empty()
    };
    head + w + tail
}

/// The per-character styles after `w` characters replace `[from, to)`
/// within spans `s`, for a new text of `new_len` characters. When `from`
/// lies within the text, the spans that the range reaches (see `reach`) are
/// replaced by one run in the style of the character just after them, or
/// `d` when none follows; otherwise a run in style `d` is appended.
pub open spec fn spliced_styles(s: Seq<SpanView>, from: int, to: int, w: nat, d: Style, new_len: nat) -> Seq<Style> {
    let x = flatten(s);
    let n = total(s) as int;
    if from < n {
        let hi = reach(s, from, to).1;
        let st = if hi < n {
            x[hi]
        } else {
            d
        };
        fit(x.take(from) + repeat(st, w) + x.skip(hi), new_len, d)
    } else {
        x + repeat(d, w)
    }
}

pub proof fn lemma_start_strict(s: Seq<SpanView>, n: nat, i: int, j: int)
    requires
        well_formed(s, n),
        n > 0,
        0 <= i < j <= s.len(),
    ensures
        start(s, i) < start(s, j),
{
    lemma_start_next(s, i);
    lemma_start_mono(s, i + 1, j);
}

pub proof fn lemma_replace_flat(s: Seq<SpanView>, a: int, b: int, x: SpanView)
    requires
        0 <= a <= b <= s.len(),
    ensures
        flatten(s.take(a) + seq![x] + s.skip(b)) == flatten(s).take(start(s, a) as int) + repeat(
            x.style,
            x.len,
        ) + flatten(s).skip(start(s, b) as int),
        total(s.take(a) + seq![x] + s.skip(b)) == start(s, a) + x.len + (total(s) - start(s, b)),
{
    lemma_flatten_take_skip(s, a);
    lemma_flatten_take_skip(s, b);
    lemma_flatten_concat(s.take(a) + seq![x], s.skip(b));
    lemma_flatten_concat(s.take(a), seq![x]);
    lemma_flatten_single(x);
    lemma_flatten_len(s);
    lemma_flatten_len(s.skip(b));
    lemma_flatten_len(s.take(a));
}


/// Inside the text, a format applied over `[from, to)` reaches exactly the
/// characters `[from, to)`.
pub proof fn lemma_reach_within(s: Seq<SpanView>, from: int, to: int)
    requires
        0 <= from < to <= total(s),
    ensures
        reach(s, from, to) == (from, to),
{
}

} // verus!
