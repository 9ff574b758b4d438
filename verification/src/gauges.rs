//! The Prometheus collectors that the inventory is published through.
//!
//! Everything that is marked `external_body` here is taken on trust: it calls the `prometheus`
//! crate, and its contract says what that crate does.
//!
//! A collector of `prometheus` is a handle: its clones share their contents. The clones made here
//! go into a registry, which only reads them. So what a collector holds changes only through the
//! functions below, which take it as `&mut`.

use vstd::prelude::*;

verus! {

use crate::keys::series_key;
use crate::rows::texts;

/// A labelled sample of a gauge family: its label values, and its value as the bits of a 64-bit
/// floating-point number.
pub type Sample = (Seq<Seq<char>>, u64);

/// What a collector is made with: its name, its help text and the names of its labels.
pub type Descriptor = (Seq<char>, Seq<char>, Seq<Seq<char>>);

/// A `prometheus::Registry`.
#[verifier::external_type_specification]
#[verifier::external_body]
pub struct ExRegistry(prometheus::Registry);

/// A `prometheus::Error`.
#[verifier::external_type_specification]
#[verifier::external_body]
pub struct ExError(prometheus::Error);

/// A `prometheus::GaugeVec`: gauges that differ in their label values.
#[verifier::external_body]
pub struct GaugeFamily {
    inner: prometheus::GaugeVec,
}

/// A `prometheus::Gauge` without labels.
#[verifier::external_body]
pub struct PlainGauge {
    inner: prometheus::Gauge,
}

/// A `prometheus::IntCounter` without labels.
#[verifier::external_body]
pub struct EventCounter {
    inner: prometheus::IntCounter,
}

/// The samples that a family holds. `prometheus` finds a sample by a hash of its label values, the
/// key here, and by nothing else: the FNV-1a hash of their bytes, with nothing between two values.
pub uninterp spec fn published(family: GaugeFamily) -> Map<u64, Sample>;

/// What a family was made with.
pub uninterp spec fn family_descriptor(family: GaugeFamily) -> Descriptor;

/// The value of a gauge, as the bits of a floating-point number.
pub uninterp spec fn gauge_bits(gauge: PlainGauge) -> u64;

/// What a gauge was made with.
pub uninterp spec fn gauge_descriptor(gauge: PlainGauge) -> Descriptor;

/// The value of a counter.
pub uninterp spec fn count(counter: EventCounter) -> u64;

/// What a counter was made with.
pub uninterp spec fn counter_descriptor(counter: EventCounter) -> Descriptor;

/// Which contents a family refers to. Its clones share its contents, and so its handle; the handles
/// of families, gauges and counters are numbered together.
pub uninterp spec fn family_handle(family: GaugeFamily) -> nat;

/// Which contents a gauge refers to. Its clones share its contents, and so its handle.
pub uninterp spec fn gauge_handle(gauge: PlainGauge) -> nat;

/// Which contents a counter refers to. Its clones share its contents, and so its handle.
pub uninterp spec fn counter_handle(counter: EventCounter) -> nat;

/// The handles of the collectors that a registry accepts in its lifetime. What it gathers of such a
/// collector are the contents that the handle stands for.
pub uninterp spec fn collected(registry: prometheus::Registry) -> Set<nat>;

/// The error that `prometheus` gives where there is no sample with these label values.
pub uninterp spec fn missing_sample(labels: Seq<Seq<char>>) -> prometheus::Error;

/// The descriptors of the collectors that a registry accepts in its lifetime. A registry changes
/// behind a shared reference, so this speaks of no moment in that lifetime.
pub uninterp spec fn accepted(registry: prometheus::Registry) -> Set<Descriptor>;

/// The descriptors of the collectors that a registry refuses in its lifetime. This too speaks of no
/// moment in it: a registry can refuse a collector and accept another with the same descriptor.
pub uninterp spec fn refused(registry: prometheus::Registry) -> Set<Descriptor>;

/// The bits of the floating-point number of seconds that `Duration::as_secs_f64` gives.
pub uninterp spec fn seconds_bits(seconds: u64, nanos: u32) -> u64;

/// The bits of the difference of two floating-point numbers.
pub uninterp spec fn difference_bits(from: u64, amount: u64) -> u64;

/// No samples at all.
pub open spec fn no_samples() -> Map<u64, Sample> {
    Map::empty()
}

/// `samples` after the sample at these label values got the value `bits`. A sample that is there
/// keeps the label values it was made with.
pub open spec fn with_sample(
    samples: Map<u64, Sample>,
    labels: Seq<Seq<char>>,
    bits: u64,
) -> Map<u64, Sample> {
    let key = series_key(labels);
    samples.insert(
        key,
        (
            if samples.contains_key(key) {
                samples[key].0
            } else {
                labels
            },
            bits,
        ),
    )
}

/// An ASCII letter or an underscore.
pub open spec fn is_word_char(c: char) -> bool {
    ('a' <= c <= 'z') || ('A' <= c <= 'Z') || c == '_'
}

/// An ASCII decimal digit.
pub open spec fn is_digit_char(c: char) -> bool {
    '0' <= c <= '9'
}

/// A metric name: letters, digits, underscores and colons, not starting with a digit.
pub open spec fn valid_metric_name(name: Seq<char>) -> bool {
    &&& name.len() > 0
    &&& !is_digit_char(name[0])
    &&& forall|i: int|
        0 <= i < name.len() ==> is_word_char(#[trigger] name[i]) || name[i] == ':'
            || is_digit_char(name[i])
}

/// A label name: letters, digits and underscores, not starting with a digit.
pub open spec fn valid_label_name(name: Seq<char>) -> bool {
    &&& name.len() > 0
    &&& !is_digit_char(name[0])
    &&& forall|i: int|
        0 <= i < name.len() ==> is_word_char(#[trigger] name[i]) || is_digit_char(name[i])
}

/// Whether `prometheus` makes a collector of this: a valid name, a help text that is not empty,
/// and valid label names of which no two are the same.
pub open spec fn valid_descriptor(descriptor: Descriptor) -> bool {
    &&& valid_metric_name(descriptor.0)
    &&& descriptor.1.len() > 0
    &&& forall|i: int|
        0 <= i < descriptor.2.len() ==> valid_label_name(#[trigger] descriptor.2[i])
    &&& descriptor.2.no_duplicates()
}

/// Calls `GaugeVec::new`. It succeeds where the name, the help text and the label names are
/// valid, and then gives a family without samples.
#[verifier::external_body]
pub(crate) fn new_family<const N: usize>(name: &str, help: &str, labels: &[&str; N]) -> (r: Result<
    GaugeFamily,
    prometheus::Error,
>)
    ensures
        r is Ok <==> valid_descriptor((name@, help@, texts(labels@))),
        r is Ok ==> family_descriptor(r->Ok_0) == (name@, help@, texts(labels@)),
        r is Ok ==> published(r->Ok_0) == no_samples(),
{
    prometheus::GaugeVec::new(prometheus::Opts::new(name, help), labels).map(
        |inner| GaugeFamily { inner },
    )
}

/// Calls `Registry::register` with a clone of the family, which shares its contents. Whether it
/// succeeds depends on what the registry already holds, so only what success and refusal mean is
/// stated.
#[verifier::external_body]
pub(crate) fn register_family(registry: &prometheus::Registry, family: &GaugeFamily) -> (r: Result<
    (),
    prometheus::Error,
>)
    ensures
        r is Ok ==> accepted(*registry).contains(family_descriptor(*family)),
        r is Ok ==> collected(*registry).contains(family_handle(*family)),
        r is Err ==> refused(*registry).contains(family_descriptor(*family)),
{
    registry.register(Box::new(family.inner.clone()))
}

/// Calls `GaugeVec::remove_label_values`: it removes the sample at the key of the label values, and
/// fails where there is none, with an error that the label values alone decide.
#[verifier::external_body]
pub(crate) fn remove_sample<const N: usize>(family: &mut GaugeFamily, labels: &[&str; N]) -> (r:
    Result<(), prometheus::Error>)
    requires
        family_descriptor(*old(family)).2.len() == N,
    ensures
        published(*final(family)) == published(*old(family)).remove(series_key(texts(labels@))),
        family_descriptor(*final(family)) == family_descriptor(*old(family)),
        family_handle(*final(family)) == family_handle(*old(family)),
        r is Ok <==> published(*old(family)).contains_key(series_key(texts(labels@))),
        r matches Err(error) ==> error == missing_sample(texts(labels@)),
{
    family.inner.remove_label_values(labels)
}

/// Calls `GaugeVec::with_label_values`, which finds or makes the sample at the key of the label
/// values and panics where their number is not that of the label names, and `Gauge::set` on it.
/// The value goes through `Duration::as_secs_f64`.
#[verifier::external_body]
pub(crate) fn set_sample<const N: usize>(
    family: &mut GaugeFamily,
    labels: &[&str; N],
    seconds: u64,
    nanos: u32,
)
    requires
        family_descriptor(*old(family)).2.len() == N,
        nanos < 1_000_000_000,
    ensures
        published(*final(family)) == with_sample(
            published(*old(family)),
            texts(labels@),
            seconds_bits(seconds, nanos),
        ),
        family_descriptor(*final(family)) == family_descriptor(*old(family)),
        family_handle(*final(family)) == family_handle(*old(family)),
{
    family.inner.with_label_values(labels).set(
        std::time::Duration::new(seconds, nanos).as_secs_f64(),
    )
}

/// Calls `GaugeVec::with_label_values` as [`set_sample`] does, and `Gauge::set` with what
/// `Gauge::get` reads from `source`.
#[verifier::external_body]
pub(crate) fn copy_to_sample<const N: usize>(
    family: &mut GaugeFamily,
    labels: &[&str; N],
    source: &PlainGauge,
)
    requires
        family_descriptor(*old(family)).2.len() == N,
    ensures
        published(*final(family)) == with_sample(
            published(*old(family)),
            texts(labels@),
            gauge_bits(*source),
        ),
        family_descriptor(*final(family)) == family_descriptor(*old(family)),
        family_handle(*final(family)) == family_handle(*old(family)),
{
    family.inner.with_label_values(labels).set(source.inner.get())
}

/// Calls `Gauge::new`. It succeeds where the name and the help text are valid, and then gives a
/// gauge at zero.
#[verifier::external_body]
pub(crate) fn new_gauge(name: &str, help: &str) -> (r: Result<PlainGauge, prometheus::Error>)
    ensures
        r is Ok <==> valid_descriptor((name@, help@, Seq::empty())),
        r is Ok ==> gauge_descriptor(r->Ok_0) == (name@, help@, Seq::<Seq<char>>::empty()),
        r is Ok ==> gauge_bits(r->Ok_0) == seconds_bits(0, 0),
{
    prometheus::Gauge::new(name, help).map(|inner| PlainGauge { inner })
}

/// Calls `Registry::register` with a clone of the gauge, which shares its contents. Whether it
/// succeeds depends on what the registry already holds, so only what success and refusal mean is
/// stated.
#[verifier::external_body]
pub(crate) fn register_gauge(registry: &prometheus::Registry, gauge: &PlainGauge) -> (r: Result<
    (),
    prometheus::Error,
>)
    ensures
        r is Ok ==> accepted(*registry).contains(gauge_descriptor(*gauge)),
        r is Ok ==> collected(*registry).contains(gauge_handle(*gauge)),
        r is Err ==> refused(*registry).contains(gauge_descriptor(*gauge)),
{
    registry.register(Box::new(gauge.inner.clone()))
}

/// Calls `Gauge::set`. The value goes through `Duration::as_secs_f64`.
#[verifier::external_body]
pub(crate) fn set_gauge(gauge: &mut PlainGauge, seconds: u64, nanos: u32)
    requires
        nanos < 1_000_000_000,
    ensures
        gauge_bits(*final(gauge)) == seconds_bits(seconds, nanos),
        gauge_descriptor(*final(gauge)) == gauge_descriptor(*old(gauge)),
        gauge_handle(*final(gauge)) == gauge_handle(*old(gauge)),
{
    gauge.inner.set(std::time::Duration::new(seconds, nanos).as_secs_f64())
}

/// Calls `Gauge::sub`: the value goes down by a whole number of seconds, which goes through
/// `Duration::as_secs_f64`.
#[verifier::external_body]
pub(crate) fn lower_gauge(gauge: &mut PlainGauge, seconds: u64)
    ensures
        gauge_bits(*final(gauge)) == difference_bits(
            gauge_bits(*old(gauge)),
            seconds_bits(seconds, 0),
        ),
        gauge_descriptor(*final(gauge)) == gauge_descriptor(*old(gauge)),
        gauge_handle(*final(gauge)) == gauge_handle(*old(gauge)),
{
    gauge.inner.sub(std::time::Duration::from_secs(seconds).as_secs_f64())
}

/// Calls `IntCounter::new`. It succeeds where the name and the help text are valid, and then
/// gives a counter at zero.
#[verifier::external_body]
pub(crate) fn new_counter(name: &str, help: &str) -> (r: Result<EventCounter, prometheus::Error>)
    ensures
        r is Ok <==> valid_descriptor((name@, help@, Seq::empty())),
        r is Ok ==> counter_descriptor(r->Ok_0) == (name@, help@, Seq::<Seq<char>>::empty()),
        r is Ok ==> count(r->Ok_0) == 0,
{
    prometheus::IntCounter::new(name, help).map(|inner| EventCounter { inner })
}

/// Calls `Registry::register` with a clone of the counter, which shares its contents. Whether it
/// succeeds depends on what the registry already holds, so only what success and refusal mean is
/// stated.
#[verifier::external_body]
pub(crate) fn register_counter(registry: &prometheus::Registry, counter: &EventCounter) -> (r:
    Result<(), prometheus::Error>)
    ensures
        r is Ok ==> accepted(*registry).contains(counter_descriptor(*counter)),
        r is Ok ==> collected(*registry).contains(counter_handle(*counter)),
        r is Err ==> refused(*registry).contains(counter_descriptor(*counter)),
{
    registry.register(Box::new(counter.inner.clone()))
}

/// Calls `IntCounter::inc`: the counter goes up by one, and from the greatest value back to zero.
#[verifier::external_body]
pub(crate) fn increment(counter: &mut EventCounter)
    ensures
        count(*final(counter)) == if count(*old(counter)) == u64::MAX {
            0
        } else {
            (count(*old(counter)) + 1) as u64
        },
        counter_descriptor(*final(counter)) == counter_descriptor(*old(counter)),
        counter_handle(*final(counter)) == counter_handle(*old(counter)),
{
    counter.inner.inc()
}

} // verus!
