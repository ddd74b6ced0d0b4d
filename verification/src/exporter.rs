//! Renders a registry snapshot as exposition text.

use crate::registry::{
    failed, lemma_collection_touches_one, registered, Entries, MetricKind, MetricValue, Registry,
    Snapshot,
};
use vstd::prelude::*;
use vstd::utf8::encode_utf8;

verus! {

/// `prometheus::Encoder::format_type` of `prometheus::TextEncoder`: the
/// media type of the text exposition format, which that crate fixes in its
/// constant `TEXT_FORMAT`. Believed, not proved.
#[verifier::external_body]
fn text_format_type() -> (s: String)
    ensures
        s@ == "text/plain; version=0.0.4"@,
{
    prometheus::Encoder::format_type(&prometheus::TextEncoder::new()).to_string()
}

/// The media type to serve the exposition text under.
pub fn content_type() -> (s: String)
    ensures
        s@ == "text/plain; version=0.0.4"@,
{
    text_format_type()
}

pub open spec fn kind_name(kind: MetricKind) -> Seq<char> {
    match kind {
        MetricKind::Counter => "counter"@,
        MetricKind::Gauge => "gauge"@,
        MetricKind::Histogram => "histogram"@,
    }
}

/// The decimal digits of a natural number, most significant first.
pub open spec fn nat_digits(n: nat) -> Seq<u8>
    decreases n,
{
    if n < 10 {
        seq![(48 + n) as u8]
    } else {
        nat_digits(n / 10).push((48 + n % 10) as u8)
    }
}

/// An integer in decimal, with a leading `-` when negative.
pub open spec fn decimal_text(v: int) -> Seq<u8> {
    if v < 0 {
        seq![45u8] + nat_digits((-v) as nat)
    } else {
        nat_digits(v as nat)
    }
}

/// The two lines that expose one metric: its type, then its value.
pub open spec fn sample_text(name: Seq<char>, v: MetricValue) -> Seq<u8> {
    encode_utf8("# TYPE "@) + encode_utf8(name) + encode_utf8(" "@) + encode_utf8(
        kind_name(v.kind),
    ) + encode_utf8("\n"@) + encode_utf8(name) + encode_utf8(" "@) + decimal_text(v.value as int)
        + encode_utf8("\n"@)
}

/// What one entry adds to the exposition: nothing until a collection has
/// succeeded.
pub open spec fn entry_text(e: (Seq<char>, MetricValue)) -> Seq<u8> {
    if e.1.populated {
        sample_text(e.0, e.1)
    } else {
        Seq::<u8>::empty()
    }
}

/// The exposition text of a registry: every populated metric, in
/// registration order.
pub open spec fn exposition(m: Entries) -> Seq<u8>
    decreases m.len(),
{
    if m.len() == 0 {
        Seq::<u8>::empty()
    } else {
        exposition(m.drop_last()) + entry_text(m.last())
    }
}

fn append_text(out: &mut Vec<u8>, s: &str)
    ensures
        final(out)@ == old(out)@ + encode_utf8(s@),
{
    let mut bytes = s.as_bytes_vec();
    out.append(&mut bytes);
}

fn append_digits(out: &mut Vec<u8>, n: u64)
    ensures
        final(out)@ == old(out)@ + nat_digits(n as nat),
    decreases n,
{
    if n < 10 {
        out.push((48 + n) as u8);
        assert(out@ =~= old(out)@ + nat_digits(n as nat));
    } else {
        append_digits(out, n / 10);
        out.push((48 + n % 10) as u8);
        assert(out@ =~= old(out)@ + nat_digits(n as nat));
    }
}

fn append_decimal(out: &mut Vec<u8>, v: i64)
    ensures
        final(out)@ == old(out)@ + decimal_text(v as int),
{
    if v < 0 {
        out.push(45u8);
        let magnitude: u64 = ((-(v + 1)) as u64) + 1;
        append_digits(out, magnitude);
        assert(out@ =~= old(out)@ + decimal_text(v as int));
    } else {
        append_digits(out, v as u64);
    }
}

fn kind_str(kind: MetricKind) -> (s: &'static str)
    ensures
        s@ == kind_name(kind),
{
    match kind {
        MetricKind::Counter => "counter",
        MetricKind::Gauge => "gauge",
        MetricKind::Histogram => "histogram",
    }
}

fn append_sample(out: &mut Vec<u8>, name: &str, v: MetricValue)
    ensures
        final(out)@ == old(out)@ + sample_text(name@, v),
{
    append_text(out, "# TYPE ");
    append_text(out, name);
    append_text(out, " ");
    append_text(out, kind_str(v.kind));
    append_text(out, "\n");
    append_text(out, name);
    append_text(out, " ");
    append_decimal(out, v.value);
    append_text(out, "\n");
    assert(out@ =~= old(out)@ + sample_text(name@, v));
}

/// Serialises a snapshot. Metrics that were never collected are left out;
/// every other metric appears with its latest good value.
pub fn export(snapshot: &Snapshot) -> (body: Vec<u8>)
    ensures
        body@ == exposition(snapshot@),
{
    let mut body: Vec<u8> = Vec::new();
    let mut i: usize = 0;
    assert(snapshot@.subrange(0, 0) =~= Seq::<(Seq<char>, MetricValue)>::empty());
    while i < snapshot.entries.len()
        invariant
            i <= snapshot.entries@.len(),
            snapshot@.len() == snapshot.entries@.len(),
            body@ == exposition(snapshot@.subrange(0, i as int)),
        decreases snapshot.entries@.len() - i,
    {
        let ghost next = snapshot@.subrange(0, i + 1);
        proof {
            assert(next.drop_last() =~= snapshot@.subrange(0, i as int));
            assert(next.last() == snapshot@[i as int]);
        }
        let e = &snapshot.entries[i];
        if e.value.populated {
            append_sample(&mut body, e.name.as_str(), e.value);
        } else {
            assert(body@ + Seq::<u8>::empty() =~= body@);
        }
        i += 1;
    }
    assert(snapshot@.subrange(0, i as int) =~= snapshot@);
    body
}

/// Snapshots the registry and serialises the copy.
pub fn export_registry(registry: &Registry) -> (body: Vec<u8>)
    requires
        registry.wf(),
    ensures
        body@ == exposition(registry@),
{
    let snapshot = registry.snapshot();
    export(&snapshot)
}

/// Two registries that agree, entry by entry, on name, kind, value and on
/// whether a value was ever collected, have the same exposition text.
pub proof fn lemma_exposition_reads_good_values(a: Entries, b: Entries)
    requires
        a.len() == b.len(),
        forall|i: int|
            0 <= i < a.len() ==> (#[trigger] a[i]).0 == b[i].0 && a[i].1.kind == b[i].1.kind
                && a[i].1.value == b[i].1.value && a[i].1.populated == b[i].1.populated,
    ensures
        exposition(a) == exposition(b),
    decreases a.len(),
{
    if a.len() > 0 {
        lemma_exposition_reads_good_values(a.drop_last(), b.drop_last());
        assert(a.last() == a[a.len() - 1]);
        assert(b.last() == b[b.len() - 1]);
    }
}

/// A metric that was registered and never collected adds nothing to the
/// exposition text, and takes nothing from it: every metric exposed before
/// the registration is exposed after it, unchanged.
pub proof fn lemma_registration_is_not_exposed(m: Entries, name: Seq<char>, kind: MetricKind)
    ensures
        exposition(registered(m, name, kind)) == exposition(m),
{
    let r = registered(m, name, kind);
    if r != m {
        assert(r.drop_last() =~= m);
        assert(exposition(m) + Seq::<u8>::empty() =~= exposition(m));
    }
}

/// A failed collection leaves the exposition text as it was: the last good
/// value of the metric stays exposed.
pub proof fn lemma_failure_keeps_exposition(m: Entries, name: Seq<char>)
    ensures
        exposition(failed(m, name)) == exposition(m),
{
    lemma_collection_touches_one(m, name, 0, 0);
    lemma_exposition_reads_good_values(failed(m, name), m);
}

/// The exposition text of two registries laid end to end is the two texts
/// laid end to end.
pub proof fn lemma_exposition_concat(a: Entries, b: Entries)
    ensures
        exposition(a + b) == exposition(a) + exposition(b),
    decreases b.len(),
{
    if b.len() == 0 {
        assert(a + b =~= a);
        assert(exposition(a) + exposition(b) =~= exposition(a));
    } else {
        lemma_exposition_concat(a, b.drop_last());
        assert((a + b).drop_last() =~= a + b.drop_last());
        assert((a + b).last() == b.last());
        assert(exposition(a + b) =~= exposition(a) + exposition(b));
    }
}

/// Every metric that was ever collected is exposed: its two lines stand in
/// the text, between the text of the entries before it and the text of
/// those after it.
pub proof fn lemma_populated_is_exposed(m: Entries, i: int)
    requires
        0 <= i < m.len(),
        m[i].1.populated,
    ensures
        exposition(m) == exposition(m.subrange(0, i)) + sample_text(m[i].0, m[i].1) + exposition(
            m.subrange(i + 1, m.len() as int),
        ),
{
    let head = m.subrange(0, i);
    let one = seq![m[i]];
    let rest = m.subrange(i + 1, m.len() as int);
    assert(m =~= (head + one) + rest);
    lemma_exposition_concat(head + one, rest);
    lemma_exposition_concat(head, one);
    assert(one.drop_last() =~= Seq::<(Seq<char>, MetricValue)>::empty());
    assert(one.last() == m[i]);
    assert(exposition(one.drop_last()) =~= Seq::<u8>::empty());
    assert(exposition(one) == exposition(one.drop_last()) + entry_text(one.last()));
    assert(exposition(one) =~= sample_text(m[i].0, m[i].1));
}

} // verus!
