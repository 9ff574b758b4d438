//! Brings the samples of a gauge family from one set of series to another.

use vstd::prelude::*;

use crate::gauges::{
    copy_to_sample, lower_gauge, new_gauge, remove_sample, set_gauge, set_sample, GaugeFamily,
};
use crate::rows::{contains, Comparable};
use crate::series::{ComponentSeries, RackDomainSeries, RackSeries, NANOS_PER_SECOND};

verus! {

use crate::gauges::{
    difference_bits,
    family_descriptor,
    family_handle,
    missing_sample,
    published,
    seconds_bits,
    valid_descriptor,
    with_sample,
    Sample,
};
use crate::keys::series_key;
use crate::rows::{texts, views};
use crate::series::{ComponentView, RackDomainView, RackSeriesView};
use crate::sizes::lemma_covered_is_no_larger;

/// The value of an info series, the number one.
pub open spec fn info_bits() -> u64 {
    seconds_bits(1, 0)
}

/// The value of the series of a rack: its creation time in seconds. Before the epoch it is the
/// fraction of a second less the whole seconds.
pub open spec fn start_time_bits(seconds: i64, nanos: i32) -> u64 {
    if seconds >= 0 {
        seconds_bits(seconds as u64, nanos as u32)
    } else {
        difference_bits(seconds_bits(0, nanos as u32), seconds_bits((-seconds) as u64, 0))
    }
}

/// A sample that was to be removed and was not there.
#[derive(Debug)]
pub struct FailedRemoval {
    /// The label values of the sample.
    pub labels: Vec<String>,
    /// What Prometheus says of it.
    pub error: prometheus::Error,
}

/// The model of [`FailedRemoval`].
pub struct FailedRemovalView {
    pub labels: Seq<Seq<char>>,
    pub error: prometheus::Error,
}

impl View for FailedRemoval {
    type V = FailedRemovalView;

    open spec fn view(&self) -> FailedRemovalView {
        FailedRemovalView { labels: views(self.labels@), error: self.error }
    }
}

/// The failure to remove the sample with these label values.
pub open spec fn failed_removal(labels: Seq<Seq<char>>) -> FailedRemovalView {
    FailedRemovalView { labels, error: missing_sample(labels) }
}

/// Copies of label values.
fn owned_labels<const N: usize>(labels: &[&str; N]) -> (r: Vec<String>)
    ensures
        views(r@) == texts(labels@),
{
    let mut owned: Vec<String> = Vec::new();
    let mut i: usize = 0;
    while i < N
        invariant
            i <= N,
            views(owned@) == texts(labels@).take(i as int),
        decreases N - i,
    {
        let ghost before = owned@;
        let label = labels[i].to_owned();
        owned.push(label);
        assert(views(owned@) =~= views(before).push(label@));
        assert(views(owned@) =~= texts(labels@).take(i + 1));
        i = i + 1;
    }
    assert(texts(labels@).take(i as int) =~= texts(labels@));
    owned
}

/// Removes the sample with these label values.
fn retire_sample<const N: usize>(family: &mut GaugeFamily, labels: &[&str; N]) -> (r: Result<
    (),
    FailedRemoval,
>)
    requires
        family_descriptor(*old(family)).2.len() == N,
    ensures
        published(*final(family)) == published(*old(family)).remove(series_key(texts(labels@))),
        family_descriptor(*final(family)) == family_descriptor(*old(family)),
        family_handle(*final(family)) == family_handle(*old(family)),
        r is Ok <==> published(*old(family)).contains_key(series_key(texts(labels@))),
        r matches Err(failed) ==> failed@ == failed_removal(texts(labels@)),
{
    match remove_sample(family, labels) {
        Ok(()) => Ok(()),
        Err(error) => Err(FailedRemoval { labels: owned_labels(labels), error }),
    }
}

/// Series that a gauge family publishes, one sample each.
pub trait Published: Comparable {
    /// The value of the sample.
    spec fn bits(model: Self::V) -> u64;

    /// How many labels the sample has.
    spec fn label_count() -> nat;

    /// Whether the value of the sample is one that can be published.
    spec fn publishable(model: Self::V) -> bool;

    /// Writes the sample.
    fn publish(&self, family: &mut GaugeFamily)
        requires
            Self::publishable(self@),
            family_descriptor(*old(family)).2.len() == Self::label_count(),
        ensures
            published(*final(family)) == with_sample(
                published(*old(family)),
                Self::row(self@),
                Self::bits(self@),
            ),
            family_descriptor(*final(family)) == family_descriptor(*old(family)),
            family_handle(*final(family)) == family_handle(*old(family)),
    ;

    /// Removes the sample. It fails where there is none.
    fn retire(&self, family: &mut GaugeFamily) -> (r: Result<(), FailedRemoval>)
        requires
            family_descriptor(*old(family)).2.len() == Self::label_count(),
        ensures
            published(*final(family)) == published(*old(family)).remove(
                series_key(Self::row(self@)),
            ),
            family_descriptor(*final(family)) == family_descriptor(*old(family)),
            family_handle(*final(family)) == family_handle(*old(family)),
            r is Ok <==> published(*old(family)).contains_key(series_key(Self::row(self@))),
            r matches Err(failed) ==> failed@ == failed_removal(Self::row(self@)),
    ;
}

impl Published for ComponentSeries {
    open spec fn bits(model: ComponentView) -> u64 {
        info_bits()
    }

    open spec fn label_count() -> nat {
        11
    }

    open spec fn publishable(model: ComponentView) -> bool {
        true
    }

    fn publish(&self, family: &mut GaugeFamily) {
        set_sample(family, &self.label_values(), 1, 0);
    }

    fn retire(&self, family: &mut GaugeFamily) -> Result<(), FailedRemoval> {
        retire_sample(family, &self.label_values())
    }
}

impl Published for RackDomainSeries {
    open spec fn bits(model: RackDomainView) -> u64 {
        info_bits()
    }

    open spec fn label_count() -> nat {
        3
    }

    open spec fn publishable(model: RackDomainView) -> bool {
        true
    }

    fn publish(&self, family: &mut GaugeFamily) {
        set_sample(family, &self.label_values(), 1, 0);
    }

    fn retire(&self, family: &mut GaugeFamily) -> Result<(), FailedRemoval> {
        retire_sample(family, &self.label_values())
    }
}

impl Published for RackSeries {
    open spec fn bits(model: RackSeriesView) -> u64 {
        start_time_bits(model.created_seconds, model.created_nanos)
    }

    open spec fn label_count() -> nat {
        2
    }

    open spec fn publishable(model: RackSeriesView) -> bool {
        0 <= model.created_nanos < NANOS_PER_SECOND
    }

    fn publish(&self, family: &mut GaugeFamily) {
        let labels = self.label_values();
        let nanos: u32 = self.created_nanos as u32;
        if self.created_seconds >= 0 {
            set_sample(family, &labels, self.created_seconds as u64, nanos);
        } else {
            // A gauge of its own takes the two steps, so that the sample changes in one.
            proof {
                reveal_strlit("start_time_seconds");
            }
            assert(valid_descriptor(("start_time_seconds"@, "start_time_seconds"@, Seq::empty())));
            if let Ok(mut start_time) = new_gauge("start_time_seconds", "start_time_seconds") {
                // `-(s + 1)` cannot overflow, `-s` can.
                let before_epoch: u64 = (-(self.created_seconds + 1)) as u64 + 1;
                set_gauge(&mut start_time, 0, nanos);
                lower_gauge(&mut start_time, before_epoch);
                copy_to_sample(family, &labels, &start_time);
            }
        }
    }

    fn retire(&self, family: &mut GaugeFamily) -> Result<(), FailedRemoval> {
        retire_sample(family, &self.label_values())
    }
}

/// The sample of a series: its label values and its value.
pub open spec fn sample<S: Published>(model: S::V) -> Sample {
    (S::row(model), S::bits(model))
}

/// The samples of a set of series.
pub open spec fn samples_of<S: Published>(models: Set<S::V>) -> Set<Sample> {
    Set::new(|s: Sample| exists|m: S::V| #[trigger] models.contains(m) && sample::<S>(m) == s)
}

/// The keys of those series in `current` that are not in `desired`.
pub open spec fn stale_keys<S: Published>(current: Seq<S::V>, desired: Seq<S::V>) -> Set<u64> {
    Set::new(
        |key: u64|
            exists|i: int|
                0 <= i < current.len() && !desired.contains(#[trigger] current[i]) && series_key(
                    S::row(current[i]),
                ) == key,
    )
}

/// The failures to remove those series in `current` that are not in `desired`, in order. A removal
/// fails where there is no sample with the key of the series, or no longer one: an earlier series
/// had the same key.
pub open spec fn failed_removals<S: Published>(
    held: Map<u64, Sample>,
    current: Seq<S::V>,
    desired: Seq<S::V>,
) -> Seq<FailedRemovalView>
    decreases current.len(),
{
    if current.len() == 0 {
        Seq::empty()
    } else {
        let init = current.drop_last();
        let row = S::row(current.last());
        let left = held.remove_keys(stale_keys::<S>(init, desired));
        let before = failed_removals::<S>(held, init, desired);
        if !desired.contains(current.last()) && !left.contains_key(series_key(row)) {
            before.push(failed_removal(row))
        } else {
            before
        }
    }
}

/// What is held once the samples of these series are written, in order.
pub open spec fn written<S: Published>(held: Map<u64, Sample>, desired: Seq<S::V>) -> Map<
    u64,
    Sample,
>
    decreases desired.len(),
{
    if desired.len() == 0 {
        held
    } else {
        with_sample(
            written::<S>(held, desired.drop_last()),
            S::row(desired.last()),
            S::bits(desired.last()),
        )
    }
}

/// What is held once the series in `current` that are not in `desired` are removed, and those in
/// `desired` are written, in order.
pub open spec fn replaced<S: Published>(
    held: Map<u64, Sample>,
    current: Seq<S::V>,
    desired: Seq<S::V>,
) -> Map<u64, Sample> {
    written::<S>(held.remove_keys(stale_keys::<S>(current, desired)), desired)
}

/// Whether every sample in `held` has the label values of a wanted sample with its key, and the
/// value of such a sample.
pub open spec fn backed(held: Map<u64, Sample>, wanted: Set<Sample>) -> bool {
    &&& forall|key: u64| #[trigger]
        held.contains_key(key) ==> exists|s: Sample| #[trigger]
            wanted.contains(s) && series_key(s.0) == key && held[key].0 == s.0
    &&& forall|key: u64| #[trigger]
        held.contains_key(key) ==> exists|s: Sample| #[trigger]
            wanted.contains(s) && series_key(s.0) == key && held[key].1 == s.1
}

/// Whether `held` shows the wanted samples: one for every key that a wanted sample has, with the
/// label values and the value of wanted samples with that key, and nothing else.
pub open spec fn shows(held: Map<u64, Sample>, wanted: Set<Sample>) -> bool {
    &&& backed(held, wanted)
    &&& forall|s: Sample| #[trigger] wanted.contains(s) ==> held.contains_key(series_key(s.0))
}

/// Whether no two samples have the same key.
pub open spec fn keys_differ(samples: Set<Sample>) -> bool {
    forall|a: Sample, b: Sample| #[trigger]
        samples.contains(a) && #[trigger] samples.contains(b) && series_key(a.0) == series_key(b.0)
            ==> a == b
}

/// Removes the series in `current` that are not in `desired`, and writes those in `desired`. Says
/// which could not be removed.
pub(crate) fn replace_series<S: Published>(
    family: &mut GaugeFamily,
    current: &Vec<S>,
    desired: &Vec<S>,
) -> (r: Vec<FailedRemoval>)
    requires
        family_descriptor(*old(family)).2.len() == S::label_count(),
        forall|i: int| 0 <= i < desired@.len() ==> S::publishable((#[trigger] desired@[i])@),
    ensures
        published(*final(family)) == replaced::<S>(
            published(*old(family)),
            views(current@),
            views(desired@),
        ),
        family_descriptor(*final(family)) == family_descriptor(*old(family)),
        family_handle(*final(family)) == family_handle(*old(family)),
        views(r@) == failed_removals::<S>(
            published(*old(family)),
            views(current@),
            views(desired@),
        ),
{
    let mut failed: Vec<FailedRemoval> = Vec::new();
    let ghost start = published(*family);
    let ghost cur = views(current@);
    let ghost des = views(desired@);
    let mut i: usize = 0;
    assert(stale_keys::<S>(cur.take(0), des) =~= Set::empty());
    assert(start.remove_keys(Set::empty()) =~= start);
    assert(views(failed@) =~= failed_removals::<S>(start, cur.take(0), des));
    while i < current.len()
        invariant
            i <= current@.len(),
            cur == views(current@),
            des == views(desired@),
            start == published(*old(family)),
            family_descriptor(*family) == family_descriptor(*old(family)),
            family_handle(*family) == family_handle(*old(family)),
            family_descriptor(*old(family)).2.len() == S::label_count(),
            published(*family) == start.remove_keys(stale_keys::<S>(cur.take(i as int), des)),
            views(failed@) == failed_removals::<S>(start, cur.take(i as int), des),
        decreases current@.len() - i,
    {
        assert(cur[i as int] == current@[i as int]@);
        proof {
            lemma_stale_keys_step::<S>(cur, des, i as int);
            assert(cur.take(i + 1).drop_last() =~= cur.take(i as int));
            assert(cur.take(i + 1).last() == cur[i as int]);
        }
        if !contains(desired, &current[i]) {
            let ghost before = failed@;
            if let Err(failure) = current[i].retire(family) {
                failed.push(failure);
                assert(views(failed@) =~= views(before).push(failure@));
            }
        }
        assert(published(*family) =~= start.remove_keys(stale_keys::<S>(cur.take(i + 1), des)));
        i = i + 1;
    }
    assert(cur.take(i as int) =~= cur);
    let ghost left = published(*family);
    i = 0;
    while i < desired.len()
        invariant
            i <= desired@.len(),
            des == views(desired@),
            family_descriptor(*family) == family_descriptor(*old(family)),
            family_handle(*family) == family_handle(*old(family)),
            family_descriptor(*old(family)).2.len() == S::label_count(),
            forall|j: int| 0 <= j < desired@.len() ==> S::publishable((#[trigger] desired@[j])@),
            published(*family) == written::<S>(left, des.take(i as int)),
        decreases desired@.len() - i,
    {
        assert(des.take(i + 1).drop_last() =~= des.take(i as int));
        assert(des.take(i + 1).last() == desired@[i as int]@);
        desired[i].publish(family);
        i = i + 1;
    }
    assert(des.take(i as int) =~= des);
    failed
}

/// One series more adds its key to the stale ones, unless it is wanted.
proof fn lemma_stale_keys_step<S: Published>(cur: Seq<S::V>, des: Seq<S::V>, i: int)
    requires
        0 <= i < cur.len(),
    ensures
        stale_keys::<S>(cur.take(i + 1), des) == if des.contains(cur[i]) {
            stale_keys::<S>(cur.take(i), des)
        } else {
            stale_keys::<S>(cur.take(i), des).insert(series_key(S::row(cur[i])))
        },
{
    let before = cur.take(i);
    let next = cur.take(i + 1);
    let expected = if des.contains(cur[i]) {
        stale_keys::<S>(before, des)
    } else {
        stale_keys::<S>(before, des).insert(series_key(S::row(cur[i])))
    };
    assert forall|key: u64| stale_keys::<S>(next, des).contains(key) <==> expected.contains(
        key,
    ) by {
        if stale_keys::<S>(next, des).contains(key) {
            let j = choose|j: int|
                0 <= j < next.len() && !des.contains(#[trigger] next[j]) && series_key(
                    S::row(next[j]),
                ) == key;
            if j < i {
                assert(before[j] == next[j]);
            } else {
                assert(next[j] == cur[i]);
            }
        }
        if stale_keys::<S>(before, des).contains(key) {
            let j = choose|j: int|
                0 <= j < before.len() && !des.contains(#[trigger] before[j]) && series_key(
                    S::row(before[j]),
                ) == key;
            assert(next[j] == before[j]);
        }
        if !des.contains(cur[i]) && key == series_key(S::row(cur[i])) {
            assert(next[i] == cur[i]);
        }
    }
    assert(stale_keys::<S>(next, des) =~= expected);
}

/// Once the stale series are gone, what is left belongs to series that are wanted.
proof fn lemma_what_stays_is_backed<S: Published>(
    held: Map<u64, Sample>,
    cur: Seq<S::V>,
    des: Seq<S::V>,
)
    requires
        shows(held, samples_of::<S>(cur.to_set())),
    ensures
        backed(held.remove_keys(stale_keys::<S>(cur, des)), samples_of::<S>(des.to_set())),
{
    let stale = stale_keys::<S>(cur, des);
    let left = held.remove_keys(stale);
    let old_samples = samples_of::<S>(cur.to_set());
    let wanted = samples_of::<S>(des.to_set());
    assert forall|s: Sample| #[trigger]
        old_samples.contains(s) && !stale.contains(series_key(s.0)) implies wanted.contains(s) by {
        let m = choose|m: S::V| #[trigger] cur.to_set().contains(m) && sample::<S>(m) == s;
        let j = choose|j: int| 0 <= j < cur.len() && cur[j] == m;
        assert(series_key(S::row(cur[j])) == series_key(s.0));
        assert(des.contains(cur[j]));
        assert(des.to_set().contains(m));
    }
    assert forall|key: u64| #[trigger] left.contains_key(key) implies exists|s: Sample| #[trigger]
        wanted.contains(s) && series_key(s.0) == key && left[key].0 == s.0 by {
        assert(held.contains_key(key) && !stale.contains(key));
        let s = choose|s: Sample| #[trigger]
            old_samples.contains(s) && series_key(s.0) == key && held[key].0 == s.0;
        assert(wanted.contains(s));
    }
    assert forall|key: u64| #[trigger] left.contains_key(key) implies exists|s: Sample| #[trigger]
        wanted.contains(s) && series_key(s.0) == key && left[key].1 == s.1 by {
        assert(held.contains_key(key) && !stale.contains(key));
        let s = choose|s: Sample| #[trigger]
            old_samples.contains(s) && series_key(s.0) == key && held[key].1 == s.1;
        assert(wanted.contains(s));
    }
}

/// Writing series that are wanted leaves every sample backed, and each of them has its key.
proof fn lemma_written_is_backed<S: Published>(
    held: Map<u64, Sample>,
    des: Seq<S::V>,
    wanted: Set<Sample>,
)
    requires
        backed(held, wanted),
        forall|i: int| 0 <= i < des.len() ==> wanted.contains(sample::<S>(#[trigger] des[i])),
    ensures
        backed(written::<S>(held, des), wanted),
        forall|i: int|
            0 <= i < des.len() ==> written::<S>(held, des).contains_key(
                series_key(S::row(#[trigger] des[i])),
            ),
    decreases des.len(),
{
    if des.len() > 0 {
        let init = des.drop_last();
        assert forall|i: int| 0 <= i < init.len() implies wanted.contains(
            sample::<S>(#[trigger] init[i]),
        ) by {
            assert(init[i] == des[i]);
        }
        lemma_written_is_backed::<S>(held, init, wanted);
        assert(des[des.len() - 1] == des.last());
        lemma_writing_keeps_backed(written::<S>(held, init), wanted, sample::<S>(des.last()));
        assert forall|i: int| 0 <= i < des.len() implies written::<S>(held, des).contains_key(
            series_key(S::row(#[trigger] des[i])),
        ) by {
            if i < init.len() {
                assert(init[i] == des[i]);
            }
        }
    }
}

/// Law: where the series in `current` are shown, and then replaced by those in `desired`, those in
/// `desired` are shown.
pub proof fn law_replaced_shows<S: Published>(
    held: Map<u64, Sample>,
    current: Seq<S::V>,
    desired: Seq<S::V>,
)
    requires
        shows(held, samples_of::<S>(current.to_set())),
    ensures
        shows(replaced::<S>(held, current, desired), samples_of::<S>(desired.to_set())),
{
    let wanted = samples_of::<S>(desired.to_set());
    let left = held.remove_keys(stale_keys::<S>(current, desired));
    let next = replaced::<S>(held, current, desired);
    lemma_what_stays_is_backed::<S>(held, current, desired);
    assert forall|i: int| 0 <= i < desired.len() implies wanted.contains(
        sample::<S>(#[trigger] desired[i]),
    ) by {
        assert(desired.to_set().contains(desired[i]));
    }
    lemma_written_is_backed::<S>(left, desired, wanted);
    assert forall|s: Sample| #[trigger] wanted.contains(s) implies next.contains_key(
        series_key(s.0),
    ) by {
        let m = choose|m: S::V| #[trigger] desired.to_set().contains(m) && sample::<S>(m) == s;
        let j = choose|j: int| 0 <= j < desired.len() && desired[j] == m;
        assert(next.contains_key(series_key(S::row(desired[j]))));
    }
}

/// Writing a wanted sample leaves every sample backed.
proof fn lemma_writing_keeps_backed(held: Map<u64, Sample>, wanted: Set<Sample>, sample: Sample)
    requires
        backed(held, wanted),
        wanted.contains(sample),
    ensures
        backed(with_sample(held, sample.0, sample.1), wanted),
{
    let next = with_sample(held, sample.0, sample.1);
    assert forall|key: u64| #[trigger] next.contains_key(key) implies exists|s: Sample| #[trigger]
        wanted.contains(s) && series_key(s.0) == key && next[key].0 == s.0 by {
        if held.contains_key(key) {
            let s = choose|s: Sample| #[trigger]
                wanted.contains(s) && series_key(s.0) == key && held[key].0 == s.0;
            assert(wanted.contains(s));
        } else {
            assert(wanted.contains(sample));
        }
    }
    assert forall|key: u64| #[trigger] next.contains_key(key) implies exists|s: Sample| #[trigger]
        wanted.contains(s) && series_key(s.0) == key && next[key].1 == s.1 by {
        if key == series_key(sample.0) {
            assert(wanted.contains(sample));
        } else {
            assert(held.contains_key(key));
            let s = choose|s: Sample| #[trigger]
                wanted.contains(s) && series_key(s.0) == key && held[key].1 == s.1;
            assert(wanted.contains(s));
        }
    }
}

/// Law: where the series in `current` are shown and no two of them have the same key, each that is
/// no longer wanted can be removed.
pub proof fn law_no_removal_fails<S: Published>(
    held: Map<u64, Sample>,
    current: Seq<S::V>,
    desired: Seq<S::V>,
)
    requires
        shows(held, samples_of::<S>(current.to_set())),
        forall|i: int, j: int|
            0 <= i < j < current.len() ==> series_key(S::row(#[trigger] current[i])) != series_key(
                S::row(#[trigger] current[j]),
            ),
    ensures
        failed_removals::<S>(held, current, desired) == Seq::<FailedRemovalView>::empty(),
{
    assert forall|i: int| 0 <= i < current.len() implies held.contains_key(
        series_key(S::row(#[trigger] current[i])),
    ) by {
        assert(current.to_set().contains(current[i]));
        assert(samples_of::<S>(current.to_set()).contains(sample::<S>(current[i])));
    }
    lemma_no_removal_fails::<S>(held, current, desired, current.len() as int);
    assert(current.take(current.len() as int) =~= current);
}

/// None of the first `n` removals fails where every series has its own key.
proof fn lemma_no_removal_fails<S: Published>(
    held: Map<u64, Sample>,
    current: Seq<S::V>,
    desired: Seq<S::V>,
    n: int,
)
    requires
        0 <= n <= current.len(),
        forall|i: int|
            0 <= i < current.len() ==> held.contains_key(
                series_key(S::row(#[trigger] current[i])),
            ),
        forall|i: int, j: int|
            0 <= i < j < current.len() ==> series_key(S::row(#[trigger] current[i])) != series_key(
                S::row(#[trigger] current[j]),
            ),
    ensures
        failed_removals::<S>(held, current.take(n), desired) == Seq::<FailedRemovalView>::empty(),
    decreases n,
{
    if n > 0 {
        let init = current.take(n - 1);
        let last = current[n - 1];
        assert(current.take(n).drop_last() =~= init);
        assert(current.take(n).last() == last);
        lemma_no_removal_fails::<S>(held, current, desired, n - 1);
        let stale = stale_keys::<S>(init, desired);
        assert(!stale.contains(series_key(S::row(last)))) by {
            if stale.contains(series_key(S::row(last))) {
                let i = choose|i: int|
                    0 <= i < init.len() && !desired.contains(#[trigger] init[i]) && series_key(
                        S::row(init[i]),
                    ) == series_key(S::row(last));
                assert(init[i] == current[i]);
            }
        }
    }
}

/// Law: a series that is no longer wanted fails to be removed exactly where there is no sample with
/// its key, or an earlier such series had the same key; and each failure names the labels of such a
/// series.
pub proof fn law_failed_removals<S: Published>(
    held: Map<u64, Sample>,
    current: Seq<S::V>,
    desired: Seq<S::V>,
    failure: FailedRemovalView,
)
    ensures
        failed_removals::<S>(held, current, desired).contains(failure) <==> exists|i: int|
            {
                &&& 0 <= i < current.len()
                &&& !desired.contains(#[trigger] current[i])
                &&& failure.labels == S::row(current[i])
                &&& failure.error == missing_sample(S::row(current[i]))
                &&& !held.contains_key(series_key(S::row(current[i]))) || exists|j: int|
                    0 <= j < i && !desired.contains(#[trigger] current[j]) && series_key(
                        S::row(current[j]),
                    ) == series_key(S::row(current[i]))
            },
    decreases current.len(),
{
    let all = failed_removals::<S>(held, current, desired);
    if current.len() > 0 {
        let init = current.drop_last();
        let last = current.last();
        let n = current.len() - 1;
        let before = failed_removals::<S>(held, init, desired);
        law_failed_removals::<S>(held, init, desired, failure);
        assert(current[n] == last);
        assert(forall|i: int| 0 <= i < init.len() ==> #[trigger] current[i] == init[i]);
        assert(forall|i: int| 0 <= i < init.len() ==> #[trigger] init[i] == current[i]);
        let key = series_key(S::row(last));
        let earlier = exists|j: int|
            0 <= j < n && !desired.contains(#[trigger] current[j]) && series_key(
                S::row(current[j]),
            ) == key;
        assert(stale_keys::<S>(init, desired).contains(key) <==> earlier) by {
            if earlier {
                let j = choose|j: int|
                    0 <= j < n && !desired.contains(#[trigger] current[j]) && series_key(
                        S::row(current[j]),
                    ) == key;
                assert(!desired.contains(init[j]));
            }
            if stale_keys::<S>(init, desired).contains(key) {
                let j = choose|j: int|
                    0 <= j < init.len() && !desired.contains(#[trigger] init[j]) && series_key(
                        S::row(init[j]),
                    ) == key;
                assert(!desired.contains(current[j]));
            }
        }
        let fails = !desired.contains(last) && (!held.contains_key(key) || earlier);
        if fails {
            assert(all == before.push(failed_removal(S::row(last))));
            assert(all[before.len() as int] == failed_removal(S::row(last)));
        } else {
            assert(all == before);
        }
        if before.contains(failure) {
            let o = choose|o: int| 0 <= o < before.len() && before[o] == failure;
            assert(all[o] == failure);
            let i = choose|i: int|
                {
                    &&& 0 <= i < init.len()
                    &&& !desired.contains(#[trigger] init[i])
                    &&& failure.labels == S::row(init[i])
                    &&& failure.error == missing_sample(S::row(init[i]))
                    &&& !held.contains_key(series_key(S::row(init[i]))) || exists|j: int|
                        0 <= j < i && !desired.contains(#[trigger] init[j]) && series_key(
                            S::row(init[j]),
                        ) == series_key(S::row(init[i]))
                };
            assert(current[i] == init[i]);
            if held.contains_key(series_key(S::row(init[i]))) {
                let j = choose|j: int|
                    0 <= j < i && !desired.contains(#[trigger] init[j]) && series_key(
                        S::row(init[j]),
                    ) == series_key(S::row(init[i]));
                assert(current[j] == init[j]);
            }
        }
        if all.contains(failure) && !before.contains(failure) {
            let o = choose|o: int| 0 <= o < all.len() && all[o] == failure;
            assert(o >= before.len());
            assert(fails);
            assert(!desired.contains(current[n]));
        }
        if exists|i: int|
            {
                &&& 0 <= i < current.len()
                &&& !desired.contains(#[trigger] current[i])
                &&& failure.labels == S::row(current[i])
                &&& failure.error == missing_sample(S::row(current[i]))
                &&& !held.contains_key(series_key(S::row(current[i]))) || exists|j: int|
                    0 <= j < i && !desired.contains(#[trigger] current[j]) && series_key(
                        S::row(current[j]),
                    ) == series_key(S::row(current[i]))
            } {
            let i = choose|i: int|
                {
                    &&& 0 <= i < current.len()
                    &&& !desired.contains(#[trigger] current[i])
                    &&& failure.labels == S::row(current[i])
                    &&& failure.error == missing_sample(S::row(current[i]))
                    &&& !held.contains_key(series_key(S::row(current[i]))) || exists|j: int|
                        0 <= j < i && !desired.contains(#[trigger] current[j]) && series_key(
                            S::row(current[j]),
                        ) == series_key(S::row(current[i]))
                };
            if i < n {
                assert(!desired.contains(init[i]));
                if held.contains_key(series_key(S::row(current[i]))) {
                    let j = choose|j: int|
                        0 <= j < i && !desired.contains(#[trigger] current[j]) && series_key(
                            S::row(current[j]),
                        ) == series_key(S::row(current[i]));
                    assert(!desired.contains(init[j]));
                }
                assert(before.contains(failure));
            } else {
                assert(fails);
            }
        }
    }
}

/// Law: what is held once series were replaced. At the key of a series that is wanted stands the
/// value of the last wanted series with that key; at another key stands what stood there, unless a
/// series with that key was removed.
pub proof fn law_replaced_values<S: Published>(
    held: Map<u64, Sample>,
    current: Seq<S::V>,
    desired: Seq<S::V>,
    key: u64,
)
    ensures
        (exists|i: int|
            0 <= i < desired.len() && series_key(S::row(#[trigger] desired[i])) == key)
            ==> replaced::<S>(held, current, desired).contains_key(key),
        forall|i: int|
            0 <= i < desired.len() && series_key(S::row(#[trigger] desired[i])) == key && (forall|
                j: int,
            |
                i < j < desired.len() ==> series_key(S::row(#[trigger] desired[j])) != key)
                ==> replaced::<S>(held, current, desired)[key].1 == S::bits(desired[i]),
        (forall|i: int|
            0 <= i < desired.len() ==> series_key(S::row(#[trigger] desired[i])) != key) ==> {
            &&& replaced::<S>(held, current, desired).contains_key(key) <==> held.contains_key(key)
                && forall|i: int|
                0 <= i < current.len() && !desired.contains(#[trigger] current[i]) ==> series_key(
                    S::row(current[i]),
                ) != key
            &&& replaced::<S>(held, current, desired).contains_key(key) ==> replaced::<S>(
                held,
                current,
                desired,
            )[key] == held[key]
        },
{
    let stale = stale_keys::<S>(current, desired);
    lemma_written_values::<S>(held.remove_keys(stale), desired, key);
    if forall|i: int|
        0 <= i < current.len() && !desired.contains(#[trigger] current[i]) ==> series_key(
            S::row(current[i]),
        ) != key {
        assert(!stale.contains(key));
    } else {
        assert(stale.contains(key));
    }
}

/// What is held at a key once series were written.
proof fn lemma_written_values<S: Published>(held: Map<u64, Sample>, desired: Seq<S::V>, key: u64)
    ensures
        (exists|i: int|
            0 <= i < desired.len() && series_key(S::row(#[trigger] desired[i])) == key)
            ==> written::<S>(held, desired).contains_key(key),
        forall|i: int|
            0 <= i < desired.len() && series_key(S::row(#[trigger] desired[i])) == key && (forall|
                j: int,
            |
                i < j < desired.len() ==> series_key(S::row(#[trigger] desired[j])) != key)
                ==> written::<S>(held, desired)[key].1 == S::bits(desired[i]),
        (forall|i: int|
            0 <= i < desired.len() ==> series_key(S::row(#[trigger] desired[i])) != key) ==> {
            &&& written::<S>(held, desired).contains_key(key) <==> held.contains_key(key)
            &&& held.contains_key(key) ==> written::<S>(held, desired)[key] == held[key]
        },
    decreases desired.len(),
{
    if desired.len() > 0 {
        let init = desired.drop_last();
        let last = desired.last();
        let n = desired.len() - 1;
        lemma_written_values::<S>(held, init, key);
        assert(desired[n] == last);
        assert(forall|i: int| 0 <= i < init.len() ==> #[trigger] desired[i] == init[i]);
        assert(forall|i: int| 0 <= i < init.len() ==> #[trigger] init[i] == desired[i]);
        if exists|i: int|
            0 <= i < desired.len() && series_key(S::row(#[trigger] desired[i])) == key {
            let i = choose|i: int|
                0 <= i < desired.len() && series_key(S::row(#[trigger] desired[i])) == key;
            if i < n {
                assert(series_key(S::row(init[i])) == key);
            }
        }
        assert forall|i: int|
            0 <= i < desired.len() && series_key(S::row(#[trigger] desired[i])) == key && (forall|
                j: int,
            |
                i < j < desired.len() ==> series_key(
                    S::row(#[trigger] desired[j]),
                ) != key) implies written::<S>(held, desired)[key].1 == S::bits(desired[i]) by {
            if i < n {
                assert(series_key(S::row(desired[n])) != key);
                assert(series_key(S::row(init[i])) == key);
                assert forall|j: int| i < j < init.len() implies series_key(
                    S::row(#[trigger] init[j]),
                ) != key by {
                    assert(init[j] == desired[j]);
                }
            }
        }
    }
}

/// Law: where no two wanted samples have the same key, exactly the wanted samples are shown, each
/// at its key.
pub proof fn law_shown_exactly(held: Map<u64, Sample>, wanted: Set<Sample>)
    requires
        shows(held, wanted),
        keys_differ(wanted),
    ensures
        forall|s: Sample| #[trigger]
            wanted.contains(s) ==> held.contains_pair(series_key(s.0), s),
        held.values() == wanted,
{
    assert forall|key: u64| #[trigger] held.contains_key(key) implies wanted.contains(held[key])
        && series_key(held[key].0) == key by {
        let a = choose|s: Sample| #[trigger]
            wanted.contains(s) && series_key(s.0) == key && held[key].0 == s.0;
        let b = choose|s: Sample| #[trigger]
            wanted.contains(s) && series_key(s.0) == key && held[key].1 == s.1;
        assert(wanted.contains(a) && wanted.contains(b));
        assert(a == b);
    }
    assert forall|s: Sample| #[trigger] wanted.contains(s) implies held.contains_pair(
        series_key(s.0),
        s,
    ) by {
        let key = series_key(s.0);
        assert(held.contains_key(key));
        assert(wanted.contains(held[key]));
    }
    assert forall|s: Sample| held.values().contains(s) <==> wanted.contains(s) by {
        if wanted.contains(s) {
            assert(held.contains_pair(series_key(s.0), s));
            assert(held.dom().contains(series_key(s.0)));
        }
    }
    assert(held.values() =~= wanted);
}

/// Law: what is shown depends on the wanted samples alone, and not on what was shown before, where
/// no two of them have the same key.
pub proof fn law_shown_is_determined(
    a: Map<u64, Sample>,
    b: Map<u64, Sample>,
    wanted: Set<Sample>,
)
    requires
        shows(a, wanted),
        shows(b, wanted),
        keys_differ(wanted),
    ensures
        a == b,
{
    law_shown_exactly(a, wanted);
    law_shown_exactly(b, wanted);
    assert forall|key: u64| a.contains_key(key) implies b.contains_key(key) && a[key]
        == b[key] by {
        let s = choose|s: Sample| #[trigger]
            wanted.contains(s) && series_key(s.0) == key && a[key].0 == s.0;
        assert(wanted.contains(s));
    }
    assert forall|key: u64| b.contains_key(key) implies a.contains_key(key) by {
        let s = choose|s: Sample| #[trigger]
            wanted.contains(s) && series_key(s.0) == key && b[key].0 == s.0;
        assert(wanted.contains(s));
    }
    assert(a =~= b);
}

/// Law: nothing is shown exactly where nothing is wanted.
pub proof fn law_nothing_shown(held: Map<u64, Sample>, wanted: Set<Sample>)
    requires
        shows(held, wanted),
    ensures
        held.dom() == Set::<u64>::empty() <==> wanted == Set::<Sample>::empty(),
{
    if wanted == Set::<Sample>::empty() {
        assert(held.dom() =~= Set::<u64>::empty()) by {
            assert forall|key: u64| !held.dom().contains(key) by {
                if held.contains_key(key) {
                    let s = choose|s: Sample| #[trigger]
                        wanted.contains(s) && series_key(s.0) == key && held[key].0 == s.0;
                    assert(wanted.contains(s));
                }
            }
        }
    }
    if held.dom() == Set::<u64>::empty() {
        assert forall|s: Sample| !wanted.contains(s) by {
            if wanted.contains(s) {
                assert(held.contains_key(series_key(s.0)));
            }
        }
        assert(wanted =~= Set::<Sample>::empty());
    }
}

/// Law: there are no more shown samples than wanted ones.
pub proof fn law_shown_is_bounded(held: Map<u64, Sample>, wanted: Set<Sample>)
    requires
        shows(held, wanted),
        wanted.finite(),
    ensures
        held.dom().finite(),
        held.dom().len() <= wanted.len(),
{
    let key_of = |s: Sample| series_key(s.0);
    assert forall|key: u64| #[trigger] held.dom().contains(key) implies exists|s: Sample| #[trigger]
        wanted.contains(s) && key_of(s) == key by {
        assert(held.contains_key(key));
        let s = choose|s: Sample| #[trigger]
            wanted.contains(s) && series_key(s.0) == key && held[key].0 == s.0;
        assert(wanted.contains(s) && key_of(s) == key);
    }
    lemma_covered_is_no_larger(wanted, held.dom(), key_of);
}

/// Law: a set of series has no more samples than series.
pub proof fn law_samples_are_bounded<S: Published>(models: Set<S::V>)
    requires
        models.finite(),
    ensures
        samples_of::<S>(models).finite(),
        samples_of::<S>(models).len() <= models.len(),
{
    lemma_covered_is_no_larger(models, samples_of::<S>(models), |m: S::V| sample::<S>(m));
}

} // verus!
