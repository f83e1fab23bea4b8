//! A text buffer partitioned into styled spans.
use vstd::prelude::*;

use crate::format::{FormatView, Style, TextFormat};
use crate::model::{
    bounds, broke, common_of, lemma_broke_well_formed, lemma_flatten_concat, lemma_flatten_take_skip,
    lemma_reach, lemma_restyle, reach, restyle, restyled, lemma_covers_style, lemma_replace_flat,
    lemma_start_strict, spliced, spliced_styles, covers, fit, flatten, is_break, lemma_covers_unique, lemma_drop_first_empty,
    lemma_drop_last, lemma_flatten_len, lemma_flatten_single, lemma_len_le_total, lemma_locate,
    lemma_merge_pair, lemma_shrink_last, lemma_split_spans, lemma_split_well_formed,
    lemma_start_le_total, lemma_start_mono, lemma_start_next, merge_pair, normalized, repeat,
    split_spans, start, total, well_formed,
};
use crate::span::{SpanView, TextSpan};

verus! {

/// The views of a list of spans.
pub open spec fn views(v: Seq<TextSpan>) -> Seq<SpanView> {
    v.map_values(|t: TextSpan| t@)
}

/// Text formatted by a list of `TextSpan`s.
#[derive(Clone, Debug)]
pub struct FormatSpans {
    text: String,
    spans: Vec<TextSpan>,
    default_format: TextFormat,
}

/// The mathematical content of a `FormatSpans`.
pub struct FormatSpansView {
    pub text: Seq<char>,
    pub spans: Seq<SpanView>,
    pub default_format: FormatView,
}

impl FormatSpansView {
    /// The style given to text that has no better source of style.
    pub open spec fn default_style(self) -> Style {
        Style::neutral().with(self.default_format)
    }

    /// The style of every character of the text.
    pub open spec fn styles(self) -> Seq<Style> {
        flatten(self.spans)
    }
}

impl View for FormatSpans {
    type V = FormatSpansView;

    closed spec fn view(&self) -> FormatSpansView {
        FormatSpansView {
            text: self.text@,
            spans: views(self.spans@),
            default_format: self.default_format@,
        }
    }
}

/// `new` is `old` after a break was ensured at `pos` with result `r`: the
/// text, the default format and the style of every character stay; when
/// `pos` is inside the text, a span that is not empty starts at `pos` and
/// `r` is its index, and where one already started there nothing changes.
pub open spec fn breaks_at(old: FormatSpansView, new: FormatSpansView, pos: int, r: Option<usize>) -> bool {
    &&& new.text == old.text
    &&& new.default_format == old.default_format
    &&& broke(old.spans, new.spans, pos, r)
}

/// Ensuring a span break twice at the same position: the second call
/// returns the index that the first returned and changes nothing.
pub proof fn lemma_break_twice(
    v0: FormatSpansView,
    v1: FormatSpansView,
    v2: FormatSpansView,
    pos: int,
    r1: Option<usize>,
    r2: Option<usize>,
)
    requires
        breaks_at(v0, v1, pos, r1),
        breaks_at(v1, v2, pos, r2),
    ensures
        r2 == r1,
        v2 == v1,
{
    if pos < total(v0.spans) {
        assert(is_break(v1.spans, r1->0 as int, pos));
    }
}

/// Finds the span that covers `search_pos` and the offset into it.
fn find_span(spans: &Vec<TextSpan>, search_pos: usize) -> (r: Option<(usize, usize)>)
    requires
        total(views(spans@)) <= usize::MAX,
    ensures
        r is None <==> search_pos >= total(views(spans@)),
        r matches Some((i, off)) ==> covers(views(spans@), i as int, search_pos as int) && off
            == search_pos - start(views(spans@), i as int),
{
    let ghost vs = views(spans@);
    let mut position: usize = 0;
    let mut index: usize = 0;
    while index < spans.len()
        invariant
            vs == views(spans@),
            index <= spans@.len(),
            position == start(vs, index as int),
            search_pos >= position,
            total(vs) <= usize::MAX,
        decreases spans@.len() - index,
    {
        let len = spans[index].length();
        proof {
            lemma_len_le_total(vs, index as int);
            lemma_start_next(vs, index as int);
        }
        if search_pos < position + len {
            return Some((index, search_pos - position));
        }
        position = position + len;
        index = index + 1;
    }
    proof {
        lemma_start_le_total(vs, index as int);
    }
    None
}

/// Ensures that a span starts at `search_pos`, cutting the span that covers
/// it in two where needed; returns the index of the span that starts there.
fn break_spans(spans: &mut Vec<TextSpan>, search_pos: usize) -> (r: Option<usize>)
    requires
        total(views(old(spans)@)) <= usize::MAX,
    ensures
        broke(views(old(spans)@), views(final(spans)@), search_pos as int, r),
{
    let ghost o = views(spans@);
    match find_span(spans, search_pos) {
        Some((first_span_pos, break_index)) => {
            if break_index == 0 {
                assert forall|i: int| is_break(o, i, search_pos as int) implies i
                    == first_span_pos as int by {
                    lemma_covers_unique(o, i, first_span_pos as int, search_pos as int);
                }
                return Some(first_span_pos);
            }
            let second_span = spans[first_span_pos].split_at(break_index);
            proof {
                lemma_start_mono(o, 0, first_span_pos as int);
            }
            let second = second_span.unwrap();
            let count = spans.len();
            assert(first_span_pos < count);
            spans.insert(first_span_pos + 1, second);
            let ghost n = views(spans@);
            proof {
                assert(n =~= split_spans(o, first_span_pos as int, break_index as nat));
                lemma_split_spans(o, first_span_pos as int, break_index as nat);
                assert forall|i: int| !is_break(o, i, search_pos as int) by {
                    if is_break(o, i, search_pos as int) {
                        lemma_covers_unique(o, i, first_span_pos as int, search_pos as int);
                    }
                }
            }
            Some(first_span_pos + 1)
        },
        None => {
            assert forall|i: int| !is_break(o, i, search_pos as int) by {
                if is_break(o, i, search_pos as int) {
                    lemma_len_le_total(o, i);
                }
            }
            None
        },
    }
}

/// No span but the first is empty and no two neighbours share a style.
pub open spec fn compact(s: Seq<SpanView>) -> bool {
    &&& forall|k: int| 1 <= k < s.len() ==> #[trigger] s[k].len > 0
    &&& forall|k: int| #![trigger s[k].style, s[k + 1].style] 0 <= k < s.len() - 1 ==> s[k].style != s[k + 1].style
}

/// Makes the lengths sum to `text_len`: a shortfall is appended in style
/// `default_format`, an excess is cut from the end.
fn reconcile(spans: &mut Vec<TextSpan>, text_len: usize, default_format: &TextFormat)
    requires
        total(views(old(spans)@)) <= usize::MAX,
    ensures
        total(views(final(spans)@)) == text_len,
        flatten(views(final(spans)@)) == fit(
            flatten(views(old(spans)@)),
            text_len as nat,
            Style::neutral().with(default_format@),
        ),
        total(views(old(spans)@)) == text_len ==> final(spans)@ == old(spans)@,
{
    let ghost o = views(spans@);
    let ghost d = Style::neutral().with(default_format@);
    proof {
        lemma_flatten_len(o);
    }
    let mut span_length: usize = 0;
    let mut i: usize = 0;
    while i < spans.len()
        invariant
            o == views(spans@),
            i <= spans@.len(),
            span_length == start(o, i as int),
            total(o) <= usize::MAX,
        decreases spans@.len() - i,
    {
        proof {
            lemma_len_le_total(o, i as int);
            lemma_start_next(o, i as int);
        }
        span_length = span_length + spans[i].length();
        i = i + 1;
    }
    proof {
        lemma_start_le_total(o, i as int);
    }
    if span_length < text_len {
        let extra = TextSpan::with_length_and_format(text_len - span_length, default_format.duplicate());
        spans.push(extra);
        proof {
            let n = views(spans@);
            assert(n =~= o.push(extra@));
            assert(n.drop_last() =~= o);
            assert(flatten(n) =~= flatten(o) + repeat(d, (text_len - total(o)) as nat));
        }
    } else if span_length > text_len {
        let mut deficiency: usize = span_length - text_len;
        let mut done = false;
        while !done && deficiency > 0 && spans.len() > 0
            invariant
                total(views(spans@)) == text_len + deficiency,
                total(views(spans@)) <= total(o),
                flatten(o).len() == total(o),
                flatten(views(spans@)) == flatten(o).take(total(views(spans@)) as int),
                done ==> deficiency == 0,
            decreases spans@.len() + (if done { 0int } else { 1int }),
        {
            let ghost c = views(spans@);
            let last_index = spans.len() - 1;
            let last_length = spans[last_index].length();
            if last_length > deficiency {
                spans[last_index].set_length(last_length - deficiency);
                proof {
                    assert(views(spans@) =~= c.update(
                        c.len() - 1,
                        SpanView { len: (c.last().len - deficiency) as nat, style: c.last().style },
                    ));
                    lemma_shrink_last(c, deficiency as nat);
                    lemma_flatten_len(c);
                    assert(flatten(o).take(total(c) as int).take(text_len as int) =~= flatten(
                        o,
                    ).take(text_len as int));
                }
                deficiency = 0;
                done = true;
            } else {
                spans.pop();
                proof {
                    assert(views(spans@) =~= c.drop_last());
                    lemma_drop_last(c);
                    lemma_flatten_len(c);
                    assert(flatten(o).take(total(c) as int).take(total(c.drop_last()) as int)
                        =~= flatten(o).take(total(c.drop_last()) as int));
                }
                deficiency = deficiency - last_length;
            }
        }
        proof {
            if views(spans@).len() == 0 {
                assert(total(views(spans@)) == 0);
            }
        }
    } else {
        proof {
            assert(flatten(o).take(text_len as int) =~= flatten(o));
        }
    }
}

/// Removes empty spans from the front while more than one span is left.
fn drop_leading_empty(spans: &mut Vec<TextSpan>)
    ensures
        flatten(views(final(spans)@)) == flatten(views(old(spans)@)),
        total(views(final(spans)@)) == total(views(old(spans)@)),
        final(spans)@.len() == 0 <==> old(spans)@.len() == 0,
        final(spans)@.len() > 1 ==> views(final(spans)@)[0].len > 0,
        old(spans)@.len() <= 1 || views(old(spans)@)[0].len > 0 ==> final(spans)@ == old(spans)@,
        final(spans)@.len() > 0 ==> views(final(spans)@).last() == views(old(spans)@).last(),
        total(views(old(spans)@)) == 0 && old(spans)@.len() > 0 ==> final(spans)@.len() == 1,
{
    while spans.len() > 1 && spans[0].length() == 0
        invariant
            spans@.len() > 0 ==> views(spans@).last() == views(old(spans)@).last(),
            total(views(old(spans)@)) == 0 && old(spans)@.len() > 0 ==> spans@.len() >= 1,
            flatten(views(spans@)) == flatten(views(old(spans)@)),
            total(views(spans@)) == total(views(old(spans)@)),
            spans@.len() == 0 <==> old(spans)@.len() == 0,
            old(spans)@.len() <= 1 || views(old(spans)@)[0].len > 0 ==> spans@ == old(spans)@,
        decreases spans@.len(),
    {
        let ghost c = views(spans@);
        spans.remove(0);
        proof {
            assert(views(spans@) =~= c.skip(1));
            lemma_drop_first_empty(c);
        }
    }
    proof {
        let c = views(spans@);
        if total(views(old(spans)@)) == 0 && old(spans)@.len() > 0 && c.len() > 1 {
            assert(c[0].len > 0);
            lemma_len_le_total(c, 0);
        }
    }
}

/// The first `i + 1` spans are compact.
#[verifier::opaque]
spec fn settled(s: Seq<SpanView>, i: int) -> bool {
    &&& forall|k: int| 1 <= k <= i ==> #[trigger] s[k].len > 0
    &&& forall|k: int| #![trigger s[k].style, s[k + 1].style] 0 <= k < i ==> s[k].style != s[k + 1].style
}

proof fn lemma_settled_merge(c: Seq<SpanView>, i: int)
    requires
        settled(c, i),
        0 <= i,
        i + 1 < c.len(),
    ensures
        settled(merge_pair(c, i), i),
{
    reveal(settled);
    let m = merge_pair(c, i);
    let p = c.take(i);
    let x = SpanView { len: c[i].len + c[i + 1].len, style: c[i].style };
    assert(m == p + seq![x] + c.skip(i + 2));
    assert(forall|k: int| 0 <= k < i ==> m[k] == #[trigger] p[k]);
    assert(forall|k: int| 0 <= k < i ==> c[k] == #[trigger] p[k]);
    assert(m[i] == x);
    assert forall|k: int| 1 <= k <= i implies #[trigger] m[k].len > 0 by {
        assert(c[k].len > 0);
    }
    assert forall|k: int| #![trigger m[k].style, m[k + 1].style] 0 <= k < i implies m[k].style != m[k + 1].style by {
        assert(c[k].style != c[k + 1].style);
    }
}

proof fn lemma_settled_zero(c: Seq<SpanView>)
    ensures
        settled(c, 0),
{
    reveal(settled);
}

proof fn lemma_settled_advance(c: Seq<SpanView>, i: int)
    requires
        settled(c, i),
        0 <= i,
        i + 1 < c.len(),
        c[i + 1].len > 0,
        c[i].style != c[i + 1].style,
    ensures
        settled(c, i + 1),
{
    reveal(settled);
}

proof fn lemma_settled_compact(c: Seq<SpanView>)
    requires
        settled(c, c.len() - 1),
    ensures
        compact(c),
{
    reveal(settled);
}

proof fn lemma_merge_step(c: Seq<SpanView>, i: int)
    requires
        settled(c, i),
        0 <= i,
        i + 1 < c.len(),
        c[i].style == c[i + 1].style || c[i + 1].len == 0,
        c.len() > 1 ==> c[0].len > 0,
    ensures
        settled(merge_pair(c, i), i),
        flatten(merge_pair(c, i)) == flatten(c),
        total(merge_pair(c, i)) == total(c),
        c[i].len + c[i + 1].len <= total(c),
        merge_pair(c, i).len() == c.len() - 1,
        merge_pair(c, i).len() > 1 ==> merge_pair(c, i)[0].len > 0,
        i < merge_pair(c, i).len(),
{
    lemma_merge_pair(c, i);
    lemma_settled_merge(c, i);
    let m = merge_pair(c, i);
    assert(m.len() == c.len() - 1);
    if i == 0 {
        assert(m[0].len == c[0].len + c[1].len);
    } else {
        assert(m[0] == c.take(i)[0]);
    }
}

/// Whether span `i + 1` shares the style of span `i` or is empty.
fn should_absorb(spans: &Vec<TextSpan>, i: usize) -> (r: bool)
    requires
        i + 1 < spans@.len(),
    ensures
        r == (views(spans@)[i as int].style == views(spans@)[i + 1].style || views(spans@)[i
            + 1].len == 0),
{
    let count = spans.len();
    assert(i < count);
    spans[i].can_merge(&spans[i + 1]) || spans[i + 1].length() == 0
}

/// Absorbs span `i + 1` into span `i`.
fn absorb_next(spans: &mut Vec<TextSpan>, i: usize)
    requires
        i + 1 < old(spans)@.len(),
        views(old(spans)@)[i as int].len + views(old(spans)@)[i + 1].len <= usize::MAX,
    ensures
        views(final(spans)@) == merge_pair(views(old(spans)@), i as int),
{
    let ghost c = views(spans@);
    let count = spans.len();
    assert(i < count);
    let next_length = spans[i + 1].length();
    let this_length = spans[i].length();
    spans[i].set_length(this_length + next_length);
    spans.remove(i + 1);
    assert(views(spans@) =~= merge_pair(c, i as int));
}

/// Absorbs into each span the neighbour after it when the two share a style
/// or that neighbour is empty.
fn merge_neighbours(spans: &mut Vec<TextSpan>)
    requires
        old(spans)@.len() >= 1,
        old(spans)@.len() > 1 ==> views(old(spans)@)[0].len > 0,
        total(views(old(spans)@)) <= usize::MAX,
    ensures
        flatten(views(final(spans)@)) == flatten(views(old(spans)@)),
        total(views(final(spans)@)) == total(views(old(spans)@)),
        final(spans)@.len() >= 1,
        final(spans)@.len() > 1 ==> views(final(spans)@)[0].len > 0,
        compact(views(final(spans)@)),
        compact(views(old(spans)@)) ==> final(spans)@ == old(spans)@,
{
    let ghost o = views(spans@);
    let mut i: usize = 0;
    proof {
        lemma_settled_zero(o);
    }
    while i < spans.len() - 1
        invariant
            flatten(views(spans@)) == flatten(o),
            total(views(spans@)) == total(o),
            total(o) <= usize::MAX,
            spans@.len() >= 1,
            i < spans@.len(),
            spans@.len() > 1 ==> views(spans@)[0].len > 0,
            settled(views(spans@), i as int),
            o == views(old(spans)@),
            compact(o) ==> spans@ == old(spans)@,
        decreases spans@.len() - i,
    {
        let ghost c = views(spans@);
        if should_absorb(spans, i) {
            proof {
                lemma_merge_step(c, i as int);
                if compact(o) {
                    assert(c[i + 1].len > 0);
                }
            }
            absorb_next(spans, i);
        } else {
            proof {
                lemma_settled_advance(c, i as int);
            }
            i = i + 1;
        }
    }
    proof {
        lemma_settled_compact(views(spans@));
    }
}

/// Restores the invariants of a span list over a text of `text_len`
/// characters; the characters keep their styles and characters beyond the
/// old end get style `default_format`.
fn normalize_spans(spans: &mut Vec<TextSpan>, text_len: usize, default_format: &TextFormat)
    requires
        total(views(old(spans)@)) <= usize::MAX,
    ensures
        normalized(views(final(spans)@), text_len as nat),
        well_formed(views(final(spans)@), text_len as nat),
        flatten(views(final(spans)@)) == fit(
            flatten(views(old(spans)@)),
            text_len as nat,
            Style::neutral().with(default_format@),
        ),
        normalized(views(old(spans)@), text_len as nat) ==> final(spans)@ == old(spans)@,
        text_len == 0 && total(views(old(spans)@)) == 0 && old(spans)@.len() > 0 ==> views(
            final(spans)@,
        ) == seq![views(old(spans)@).last()],
{
    let ghost o = views(spans@);
    let ghost d = Style::neutral().with(default_format@);
    reconcile(spans, text_len, default_format);
    let ghost r = views(spans@);
    proof {
        lemma_normalized_unchanged_front(o, text_len as nat);
    }
    drop_leading_empty(spans);
    if spans.len() == 0 {
        let fresh = TextSpan::with_length_and_format(text_len, default_format.duplicate());
        spans.push(fresh);
        proof {
            let n = views(spans@);
            assert(n =~= seq![fresh@]);
            lemma_flatten_single(fresh@);
            assert(repeat(d, 0) =~= Seq::<Style>::empty());
            assert(flatten(r) =~= Seq::<Style>::empty());
            lemma_single_normalized(n, text_len as nat);
        }
    } else {
        let ghost before_merge = views(spans@);
        proof {
            if before_merge.len() == 1 {
                assert(compact(before_merge));
            }
        }
        merge_neighbours(spans);
        proof {
            lemma_compact_normalized(views(spans@), text_len as nat);
            if text_len == 0 && total(o) == 0 && o.len() > 0 {
                assert(views(spans@) =~= seq![o.last()]);
            }
        }
    }
}

proof fn lemma_normalized_unchanged_front(o: Seq<SpanView>, n: nat)
    ensures
        normalized(o, n) ==> compact(o),
        normalized(o, n) ==> o.len() <= 1 || o[0].len > 0,
{
    if normalized(o, n) {
        if o.len() > 1 {
            assert(o[0].len > 0);
        }
    }
}

proof fn lemma_single_normalized(s: Seq<SpanView>, n: nat)
    requires
        s.len() == 1,
        total(s) == n,
        n == 0,
    ensures
        normalized(s, n),
        well_formed(s, n),
{
}

proof fn lemma_compact_normalized(s: Seq<SpanView>, n: nat)
    requires
        compact(s),
        total(s) == n,
        n <= usize::MAX,
        s.len() >= 1,
        s.len() > 1 ==> s[0].len > 0,
    ensures
        normalized(s, n),
        well_formed(s, n),
{
    if s.len() == 1 {
        assert(s =~= seq![s[0]]);
        lemma_flatten_single(s[0]);
    }
    if n == 0 && s.len() > 1 {
        lemma_len_le_total(s, 1);
    }
    if n > 0 {
        assert forall|i: int| 0 <= i < s.len() implies #[trigger] s[i].len > 0 by {
            if i >= 1 {
                assert(s[i].len > 0);
            }
        }
    }
}

impl FormatSpans {
    /// The invariants that every operation keeps (see `well_formed`).
    pub open spec fn wf(&self) -> bool {
        well_formed(self@.spans, self@.text.len())
    }

    /// The invariants that hold after every operation but
    /// `ensure_span_break_at`: also no two neighbouring spans share a style.
    pub open spec fn is_normal(&self) -> bool {
        self.wf() && normalized(self@.spans, self@.text.len())
    }

    /// The whole of `text` as one span in style `default_format`, which is
    /// also the default format.
    pub fn from_str_and_format(text: &str, default_format: TextFormat) -> (r: FormatSpans)
        ensures
            r@.text == text@,
            r@.default_format == default_format@,
            r@.spans == seq![SpanView { len: text@.len(), style: r@.default_style() }],
            r.is_normal(),
    {
        let length = text.unicode_len();
        let span = TextSpan::with_length_and_format(length, default_format.duplicate());
        let mut spans: Vec<TextSpan> = Vec::new();
        spans.push(span);
        let r = FormatSpans { text: text.to_owned(), spans, default_format };
        proof {
            assert(r@.spans =~= seq![span@]);
            lemma_flatten_single(span@);
        }
        r
    }

    /// Text with the given spans, normalized, and no default format.
    pub fn from_str_and_spans(text: &str, spans: &[TextSpan]) -> (r: FormatSpans)
        requires
            total(views(spans@)) <= usize::MAX,
        ensures
            r@.text == text@,
            r@.default_format == FormatView::unset(),
            r@.styles() == fit(flatten(views(spans@)), text@.len(), Style::neutral()),
            normalized(views(spans@), text@.len()) ==> r@.spans == views(spans@),
            r.is_normal(),
    {
        let mut copied: Vec<TextSpan> = Vec::new();
        let mut i: usize = 0;
        while i < spans.len()
            invariant
                i <= spans@.len(),
                views(copied@) == views(spans@).take(i as int),
            decreases spans@.len() - i,
        {
            let ghost prev = views(copied@);
            let item = spans[i].duplicate();
            copied.push(item);
            assert(views(copied@) =~= prev.push(item@));
            i = i + 1;
            assert(views(copied@) =~= views(spans@).take(i as int));
        }
        assert(views(spans@).take(i as int) =~= views(spans@));
        let length = text.unicode_len();
        let default_format = TextFormat::unset();
        proof {
            assert(Style::neutral().with(default_format@) =~= Style::neutral());
        }
        normalize_spans(&mut copied, length, &default_format);
        FormatSpans { text: text.to_owned(), spans: copied, default_format }
    }

    /// The format given to new text that has no better source of style.
    pub fn default_format(&self) -> (r: &TextFormat)
        ensures
            r@ == self@.default_format,
    {
        &self.default_format
    }

    /// Replaces the default format.
    pub fn set_default_format(&mut self, tf: TextFormat)
        ensures
            final(self)@ == (FormatSpansView { default_format: tf@, ..old(self)@ }),
    {
        self.default_format = tf;
    }

    /// The text.
    pub fn text(&self) -> (r: &str)
        ensures
            r@ == self@.text,
    {
        self.text.as_str()
    }

    /// The spans, in order.
    pub fn spans(&self) -> (r: &Vec<TextSpan>)
        ensures
            views(r@) == self@.spans,
    {
        &self.spans
    }

    /// Finds the span that covers `search_pos` and how far into that span
    /// the position lies; `None` when the position is at or past the end.
    ///
    /// The index is not valid across calls that change the spans.
    pub fn resolve_position_as_span(&self, search_pos: usize) -> (r: Option<(usize, usize)>)
        requires
            self.wf(),
        ensures
            r is None <==> search_pos >= self@.text.len(),
            r matches Some((i, off)) ==> covers(self@.spans, i as int, search_pos as int) && off
                == search_pos - start(self@.spans, i as int),
    {
        find_span(&self.spans, search_pos)
    }

    /// Creates a span break at `search_pos`, if one does not already exist,
    /// and returns the index of the span that starts there; `None` when the
    /// position is at or past the end.
    ///
    /// No character changes style. Where the span that covers `search_pos`
    /// starts elsewhere, it is cut in two, and every later index grows by
    /// one: to create several breaks, create them in increasing order or
    /// resolve each again afterwards.
    pub fn ensure_span_break_at(&mut self, search_pos: usize) -> (r: Option<usize>)
        requires
            old(self).wf(),
        ensures
            final(self).wf(),
            breaks_at(old(self)@, final(self)@, search_pos as int, r),
    {
        let ghost o = self@.spans;
        let r = break_spans(&mut self.spans, search_pos);
        proof {
            if r is Some && self@.spans != o {
                lemma_split_well_formed(
                    o,
                    r->0 - 1,
                    (search_pos - start(o, r->0 - 1)) as nat,
                    self@.text.len(),
                );
            }
        }
        r
    }

    /// The half-open range of span indices that covers the characters
    /// `[from, to)`; it may reach past either end of that range (see
    /// `bounds`). Call `ensure_span_break_at` first for an exact range.
    pub fn get_span_boundaries(&self, from: usize, to: usize) -> (r: (usize, usize))
        requires
            self.wf(),
        ensures
            r.0 as int == bounds(self@.spans, from as int, to as int).0,
            r.1 as int == bounds(self@.spans, from as int, to as int).1,
            r.0 < self@.spans.len(),
            r.1 <= self@.spans.len(),
    {
        span_boundaries(&self.spans, from, to)
    }

    /// Restores the invariants: the lengths sum to the text's length, no
    /// span is empty unless the text is, and no two neighbouring spans share
    /// a style. No character changes style, and spans that already meet the
    /// invariants are left as they are.
    pub fn normalize(&mut self)
        requires
            old(self).wf(),
        ensures
            final(self).is_normal(),
            final(self)@.text == old(self)@.text,
            final(self)@.default_format == old(self)@.default_format,
            final(self)@.styles() == old(self)@.styles(),
            old(self).is_normal() ==> final(self)@ == old(self)@,
    {
        let ghost o = self@;
        let length = self.text.as_str().unicode_len();
        normalize_spans(&mut self.spans, length, &self.default_format);
        proof {
            lemma_flatten_len(o.spans);
            assert(flatten(o.spans).take(length as int) =~= flatten(o.spans));
            if normalized(o.spans, o.text.len()) {
                assert(views(self.spans@) == o.spans);
                assert(self@ == o);
            }
        }
    }

    /// The format common to all spans that the characters `[from, to)`
    /// reach (see `get_span_boundaries`): each attribute on which those
    /// spans differ is undefined.
    pub fn get_text_format(&self, from: usize, to: usize) -> (r: TextFormat)
        requires
            self.wf(),
        ensures
            r@ == common_of(
                self@.spans,
                bounds(self@.spans, from as int, to as int).0,
                bounds(self@.spans, from as int, to as int).1,
            ),
    {
        let (start_pos, end_pos) = span_boundaries(&self.spans, from, to);
        let mut merged_fmt = self.spans[start_pos].get_text_format();
        let count = self.spans.len();
        let mut i: usize = start_pos + 1;
        while i < end_pos
            invariant
                start_pos < i,
                i <= end_pos || i == start_pos + 1,
                count == self.spans@.len(),
                end_pos <= self.spans@.len(),
                merged_fmt@ == common_of(self@.spans, start_pos as int, i as int),
            decreases end_pos - i,
        {
            merged_fmt = merged_fmt.merge_matching_properties(self.spans[i].get_text_format());
            i = i + 1;
        }
        proof {
            if end_pos <= start_pos + 1 {
                assert(i == start_pos + 1);
                assert(common_of(self@.spans, start_pos as int, end_pos as int) == common_of(
                    self@.spans,
                    start_pos as int,
                    start_pos + 1,
                ));
            }
        }
        merged_fmt
    }
}

/// See `FormatSpans::get_span_boundaries`.
fn span_boundaries(spans: &Vec<TextSpan>, from: usize, to: usize) -> (r: (usize, usize))
    requires
        total(views(spans@)) <= usize::MAX,
        spans@.len() > 0,
    ensures
        r.0 as int == bounds(views(spans@), from as int, to as int).0,
        r.1 as int == bounds(views(spans@), from as int, to as int).1,
        r.0 < spans@.len(),
        r.1 <= spans@.len(),
        from < total(views(spans@)) ==> covers(views(spans@), r.0 as int, from as int),
        (if to == 0 { 0 } else { to - 1 }) < total(views(spans@)) ==> covers(
            views(spans@),
            r.1 - 1,
            if to == 0 { 0 } else { to - 1 },
        ),
{
    let start_pos = match find_span(spans, from) {
        Some((i, _)) => {
            proof {
                lemma_locate(views(spans@), i as int, from as int);
            }
            i
        },
        None => 0,
    };
    let last = if to == 0 {
        0
    } else {
        to - 1
    };
    let end_pos = match find_span(spans, last) {
        Some((i, _)) => {
            proof {
                lemma_locate(views(spans@), i as int, last as int);
            }
            let count = spans.len();
            assert(i < count);
            i + 1
        },
        None => spans.len(),
    };
    (start_pos, end_pos)
}

/// Applies `fmt` to spans `a` up to `b` (exclusive).
fn restyle_spans(spans: &mut Vec<TextSpan>, a: usize, b: usize, fmt: &TextFormat)
    requires
        b <= old(spans)@.len(),
    ensures
        views(final(spans)@) == restyle(views(old(spans)@), a as int, b as int, fmt@),
{
    let ghost o = views(spans@);
    if a >= b {
        assert(views(spans@) =~= restyle(o, a as int, b as int, fmt@));
        return;
    }
    let mut i: usize = a;
    assert(views(spans@) =~= restyle(o, a as int, a as int, fmt@));
    while i < b
        invariant
            a <= i <= b,
            b <= spans@.len(),
            spans@.len() == o.len(),
            views(spans@) == restyle(o, a as int, i as int, fmt@),
        decreases b - i,
    {
        let ghost c = spans@;
        assert(views(c)[i as int] == o[i as int]);
        assert(c[i as int]@ == o[i as int]);
        spans[i].set_text_format(fmt);
        proof {
            assert forall|j: int| 0 <= j < o.len() implies #[trigger] views(spans@)[j] == restyle(
                o,
                a as int,
                i + 1,
                fmt@,
            )[j] by {
                assert(views(spans@)[j] == spans@[j]@);
                if j != i {
                    assert(spans@[j] == c[j]);
                    assert(views(c)[j] == c[j]@);
                } else {
                    assert(spans@[j]@ == (SpanView {
                        len: o[j].len,
                        style: o[j].style.with(fmt@),
                    }));
                }
            }
            assert(views(spans@) =~= restyle(o, a as int, i + 1, fmt@));
        }
        i = i + 1;
    }
}

/// Replaces spans `a` up to `b` (exclusive) with `span`.
fn replace_spans(spans: &mut Vec<TextSpan>, a: usize, b: usize, span: TextSpan)
    requires
        a <= b <= old(spans)@.len(),
    ensures
        views(final(spans)@) == views(old(spans)@).take(a as int) + seq![span@] + views(
            old(spans)@,
        ).skip(b as int),
{
    let ghost o = views(spans@);
    let mut k: usize = a;
    assert(views(spans@) =~= o.take(a as int) + o.skip(a as int));
    while k < b
        invariant
            a <= k <= b,
            b <= o.len(),
            spans@.len() == o.len() - (k - a),
            views(spans@) == o.take(a as int) + o.skip(k as int),
        decreases b - k,
    {
        let ghost c = views(spans@);
        spans.remove(a);
        proof {
            assert(views(spans@) =~= c.remove(a as int));
            assert(c.remove(a as int) =~= o.take(a as int) + o.skip(k + 1));
        }
        k = k + 1;
    }
    let ghost c = views(spans@);
    spans.insert(a, span);
    assert(views(spans@) =~= c.insert(a as int, span@));
    assert(c.insert(a as int, span@) =~= o.take(a as int) + seq![span@] + o.skip(b as int));
}

impl FormatSpans {
    /// Applies `fmt` to the characters `[from, to)`: each attribute that
    /// `fmt` defines replaces that attribute of every character that the
    /// spans between a break at `from` and a break at `to` cover (see
    /// `reach`), and the spans are normalized.
    pub fn set_text_format(&mut self, from: usize, to: usize, fmt: &TextFormat)
        requires
            old(self).wf(),
        ensures
            final(self).is_normal(),
            final(self)@.text == old(self)@.text,
            final(self)@.default_format == old(self)@.default_format,
            final(self)@.styles() == restyled(
                old(self)@.styles(),
                reach(old(self)@.spans, from as int, to as int).0,
                reach(old(self)@.spans, from as int, to as int).1,
                fmt@,
            ),
            old(self)@.text.len() == 0 ==> final(self)@.spans == seq![
                SpanView { len: 0, style: old(self)@.spans[0].style.with(fmt@) },
            ],
    {
        let ghost s0 = self@.spans;
        let ghost n = self@.text.len();
        let r1 = break_spans(&mut self.spans, from);
        let ghost s1 = views(self.spans@);
        proof {
            lemma_broke_well_formed(s0, s1, from as int, r1, n);
        }
        let r2 = break_spans(&mut self.spans, to);
        let ghost s2 = views(self.spans@);
        proof {
            lemma_broke_well_formed(s1, s2, to as int, r2, n);
        }
        let (a, b) = span_boundaries(&self.spans, from, to);
        proof {
            lemma_reach(s0, s1, s2, from as int, to as int, r1, r2, n, a as int, b as int);
        }
        restyle_spans(&mut self.spans, a, b, fmt);
        let ghost s3 = views(self.spans@);
        proof {
            let lo = reach(s0, from as int, to as int).0;
            let hi = reach(s0, from as int, to as int).1;
            if a <= b {
                lemma_restyle(s2, a as int, b as int, fmt@);
            } else {
                assert(s3 =~= s2);
                assert(restyled(flatten(s2), lo, hi, fmt@) =~= flatten(s2));
            }
            lemma_flatten_len(s3);
            if n == 0 {
                assert(s1 == s0);
                assert(s2 == s1);
                assert(s3 =~= seq![SpanView { len: 0, style: s0[0].style.with(fmt@) }]);
            }
        }
        let length = self.text.as_str().unicode_len();
        normalize_spans(&mut self.spans, length, &self.default_format);
        proof {
            assert(flatten(s3).take(length as int) =~= flatten(s3));
        }
    }
}

/// The text with the characters `[from, to)` replaced by `with`.
fn splice_text(text: &str, from: usize, to: usize, with: &str) -> (r: String)
    ensures
        r@ == spliced(text@, from as int, to as int, with@),
{
    let length = text.unicode_len();
    let mut new_string = String::new();
    if from <= length {
        new_string.append(text.substring_char(0, from));
    } else {
        new_string.append(text);
    }
    new_string.append(with);
    if to <= length {
        new_string.append(text.substring_char(to, length));
        assert(text@.subrange(to as int, length as int) =~= text@.skip(to as int));
    }
    proof {
        assert(new_string@ =~= spliced(text@, from as int, to as int, with@));
    }
    new_string
}

proof fn lemma_start_zero_spans(s: Seq<SpanView>)
    ensures
        start(s, 0) == 0,
{
    assert(s.take(0) =~= Seq::<SpanView>::empty());
}

/// Replaces the spans that `[from, to)` reaches with one span of `width`
/// characters styled as the text that follows them, or in the default
/// format when nothing follows.
fn splice_spans(
    spans: &mut Vec<TextSpan>,
    length: usize,
    from: usize,
    to: usize,
    width: usize,
    default_format: &TextFormat,
)
    requires
        well_formed(views(old(spans)@), length as nat),
        from < length,
        from <= to,
    ensures
        ({
            let s0 = views(old(spans)@);
            let x = flatten(s0);
            let hi = reach(s0, from as int, to as int).1;
            let st = if hi < length {
                x[hi]
            } else {
                Style::neutral().with(default_format@)
            };
            &&& flatten(views(final(spans)@)) == x.take(from as int) + repeat(st, width as nat)
                + x.skip(hi)
            &&& total(views(final(spans)@)) == from + width + (length - hi)
            &&& from <= hi <= length
            &&& from == 0 && width == 0 && hi == length ==> views(final(spans)@) == seq![
                SpanView { len: 0, style: Style::neutral().with(default_format@) },
            ]
        }),
{
    let ghost s0 = views(spans@);
    let ghost n = length as nat;
    let r1 = break_spans(spans, from);
    let ghost s1 = views(spans@);
    proof {
        lemma_broke_well_formed(s0, s1, from as int, r1, n);
    }
    let r2 = break_spans(spans, to);
    let ghost s2 = views(spans@);
    proof {
        lemma_broke_well_formed(s1, s2, to as int, r2, n);
    }
    let (a, b) = span_boundaries(spans, from, to);
    proof {
        lemma_reach(s0, s1, s2, from as int, to as int, r1, r2, n, a as int, b as int);
        if a > b {
            lemma_start_strict(s2, n, b as int, a as int);
        }
    }
    let count = spans.len();
    let new_tf = if b < count {
        spans[b].get_text_format()
    } else {
        default_format.duplicate()
    };
    let span = TextSpan::with_length_and_format(width, new_tf);
    proof {
        let hi = reach(s0, from as int, to as int).1;
        if b < s2.len() {
            lemma_covers_style(s2, b as int, hi);
            assert(span@.style =~= s2[b as int].style);
        }
        lemma_replace_flat(s2, a as int, b as int, span@);
        lemma_start_le_total(s2, b as int);
        lemma_start_mono(s2, a as int, b as int);
        if from == 0 && hi == length && a > 0 {
            lemma_start_strict(s2, n, 0, a as int);
            lemma_start_zero_spans(s2);
        }
    }
    replace_spans(spans, a, b, span);
    proof {
        let hi = reach(s0, from as int, to as int).1;
        if from == 0 && width == 0 && hi == length {
            lemma_start_zero_spans(s2);
            assert(views(spans@) =~= seq![span@]);
        }
    }
}

impl FormatSpans {
    /// Replaces the characters `[from, to)` with `with`; a bound past the
    /// end stands for the end, and a range with `to < from` changes nothing.
    ///
    /// The spans that the range reaches are replaced by one span for the new
    /// text, styled as the text that follows them, or in the default format
    /// when nothing follows; when `from` is at or past the end, a span in the
    /// default format is appended. The spans are then normalized.
    pub fn replace_text(&mut self, from: usize, to: usize, with: &str)
        requires
            old(self).wf(),
        ensures
            to < from ==> final(self)@ == old(self)@,
            from <= to ==> {
                &&& final(self).is_normal()
                &&& final(self)@.default_format == old(self)@.default_format
                &&& final(self)@.text == spliced(old(self)@.text, from as int, to as int, with@)
                &&& final(self)@.styles() == spliced_styles(
                    old(self)@.spans,
                    from as int,
                    to as int,
                    with@.len(),
                    old(self)@.default_style(),
                    final(self)@.text.len(),
                )
                &&& final(self)@.text.len() == 0 ==> final(self)@.spans == seq![
                    SpanView { len: 0, style: old(self)@.default_style() },
                ]
            },
    {
        if to < from {
            return;
        }
        let ghost s0 = self@.spans;
        let ghost n = self@.text.len();
        let ghost d = self@.default_style();
        let new_text = splice_text(self.text.as_str(), from, to, with);
        let new_length = new_text.as_str().unicode_len();
        let width = with.unicode_len();
        let length = self.text.as_str().unicode_len();
        if from < length {
            splice_spans(&mut self.spans, length, from, to, width, &self.default_format);
        } else {
            let span = TextSpan::with_length_and_format(width, self.default_format.duplicate());
            let ghost s1 = views(self.spans@);
            self.spans.push(span);
            proof {
                assert(views(self.spans@) =~= s1.push(span@));
                assert(views(self.spans@).drop_last() =~= s1);
            }
        }
        self.text = new_text;
        proof {
            lemma_flatten_len(views(self.spans@));
        }
        normalize_spans(&mut self.spans, new_length, &self.default_format);
        proof {
            if new_length == 0 && from >= length {
                assert(s0.len() == 1);
            }
            if from >= length {
                lemma_flatten_len(s0);
                let x = flatten(s0) + repeat(d, width as nat);
                assert(x.take(new_length as int) =~= x);
            }
        }
    }
}

} // verus!
