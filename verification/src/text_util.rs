use crate::line::{clone_spans, plain, span, spans_view, LineSpan, SpanView};
use crate::text::{are_text, plural_text};
use vstd::prelude::*;
use vstd::string::*;

verus! {

/// The views of a sequence of span lists.
pub open spec fn span_lists_view(lists: Seq<Vec<LineSpan>>) -> Seq<Seq<SpanView>> {
    lists.map_values(|l: Vec<LineSpan>| spans_view(l@))
}

/// Each span as a list of its own.
pub open spec fn singletons(spans: Seq<SpanView>) -> Seq<Seq<SpanView>> {
    spans.map_values(|s: SpanView| seq![s])
}

/// The items in order, with a comma and a space between neighbours.
pub open spec fn comma_joined(items: Seq<Seq<SpanView>>) -> Seq<SpanView>
    decreases items.len(),
{
    if items.len() == 0 {
        Seq::empty()
    } else if items.len() == 1 {
        items[0]
    } else {
        comma_joined(items.drop_last()) + seq![plain(", "@)] + items.last()
    }
}

/// The items in order as an enumeration: commas between all but the last
/// two, and the word "and" between those.
pub open spec fn and_joined(items: Seq<Seq<SpanView>>) -> Seq<SpanView> {
    if items.len() == 0 {
        Seq::empty()
    } else if items.len() == 1 {
        items[0]
    } else {
        comma_joined(items.drop_last()) + seq![plain(" and "@)] + items.last()
    }
}

/// Joins span lists into one enumeration.
pub fn and_span_vecs(words: Vec<Vec<LineSpan>>) -> (r: Vec<LineSpan>)
    ensures
        spans_view(r@) == and_joined(span_lists_view(words@)),
{
    let ghost items = span_lists_view(words@);
    let n = words.len();
    if n == 0 {
        return Vec::new();
    }
    let mut out = clone_spans(&words[0]);
    if n == 1 {
        return out;
    }
    assert(items.take(1) =~= seq![items[0]]);
    let mut i: usize = 1;
    while i < n - 1
        invariant
            1 <= i <= n - 1,
            n == words@.len(),
            items == span_lists_view(words@),
            spans_view(out@) == comma_joined(items.take(i as int)),
        decreases n - i,
    {
        let ghost before = spans_view(out@);
        out.push(span(", "));
        let mut next = clone_spans(&words[i]);
        out.append(&mut next);
        proof {
            let upto = items.take(i + 1);
            assert(upto.drop_last() =~= items.take(i as int));
            assert(upto.last() == items[i as int]);
            assert(spans_view(out@) =~= before + seq![plain(", "@)] + items[i as int]);
        }
        i = i + 1;
    }
    let ghost before = spans_view(out@);
    out.push(span(" and "));
    let mut last = clone_spans(&words[n - 1]);
    out.append(&mut last);
    proof {
        assert(items.drop_last() =~= items.take(n - 1));
        assert(spans_view(out@) =~= before + seq![plain(" and "@)] + items.last());
    }
    out
}

/// Joins spans into one enumeration.
pub fn and_spans(words: Vec<LineSpan>) -> (r: Vec<LineSpan>)
    ensures
        spans_view(r@) == and_joined(singletons(spans_view(words@))),
{
    let ghost items = singletons(spans_view(words@));
    let n = words.len();
    let mut out: Vec<LineSpan> = Vec::new();
    if n == 0 {
        assert(spans_view(out@) =~= Seq::<SpanView>::empty());
        return out;
    }
    out.push(words[0].clone());
    assert(spans_view(out@) =~= items[0]);
    if n == 1 {
        return out;
    }
    assert(items.take(1) =~= seq![items[0]]);
    let mut i: usize = 1;
    while i < n - 1
        invariant
            1 <= i <= n - 1,
            n == words@.len(),
            items == singletons(spans_view(words@)),
            spans_view(out@) == comma_joined(items.take(i as int)),
        decreases n - i,
    {
        let ghost before = spans_view(out@);
        out.push(span(", "));
        out.push(words[i].clone());
        proof {
            let upto = items.take(i + 1);
            assert(upto.drop_last() =~= items.take(i as int));
            assert(upto.last() == items[i as int]);
            assert(spans_view(out@) =~= before + seq![plain(", "@)] + items[i as int]);
        }
        i = i + 1;
    }
    let ghost before = spans_view(out@);
    out.push(span(" and "));
    out.push(words[n - 1].clone());
    proof {
        assert(items.drop_last() =~= items.take(n - 1));
        assert(spans_view(out@) =~= before + seq![plain(" and "@)] + items.last());
    }
    out
}

/// The verb form that goes with a count.
pub fn are(len: usize) -> (r: &'static str)
    ensures
        r@ == are_text(len as int),
{
    if len > 1 {
        "are"
    } else {
        "is"
    }
}

/// The noun in the number that goes with a count.
pub fn plural(len: usize, str: &str) -> (r: String)
    ensures
        r@ == plural_text(len as int, str@),
{
    if len > 1 {
        String::from_str(str).concat("s")
    } else {
        String::from_str(str)
    }
}

} // verus!
