//! Reshaping a transcript into the private inputs of the fold iterations.

use crate::field::FieldElement;
use crate::transcript::{name_is_new, Column, Transcript, Value};
use vstd::string::*;
use vstd::prelude::*;
use vstd::slice::slice_subrange;

verus! {

/// What a fold iteration draws from a field: the entry of one event, or the
/// entries of a run of events.
#[derive(Clone, Copy, Debug, PartialEq, Eq)]
pub enum Drawn<'a> {
    One(&'a Value),
    Run(&'a [Value]),
}

/// A field's name with what was drawn from the field.
#[derive(Clone, Copy, Debug, PartialEq, Eq)]
pub struct Binding<'a> {
    pub name: &'a str,
    pub drawn: Drawn<'a>,
}

/// The private input of one fold iteration: one binding for each field, in
/// the order of the transcript's fields.
#[derive(Debug, PartialEq, Eq)]
pub struct FoldInput<'a> {
    pub bindings: Vec<Binding<'a>>,
}

/// The fold inputs of all iterations, in transcript order, with the initial
/// public input.
#[derive(Debug, PartialEq, Eq)]
pub struct Sharded<'a> {
    pub records: Vec<FoldInput<'a>>,
    pub public_input: &'a Vec<FieldElement>,
}

/// A transcript is too short for the iterations asked for.
#[derive(Clone, Copy, Debug, PartialEq, Eq)]
pub enum ShardError {
    InsufficientTranscript,
}

/// What was drawn, as a value.
pub enum Draw {
    One(Value),
    Run(Seq<Value>),
}

/// A binding, as a value.
pub struct Bound {
    pub name: Seq<char>,
    pub draw: Draw,
}

impl<'a> View for Drawn<'a> {
    type V = Draw;

    open spec fn view(&self) -> Draw {
        match *self {
            Drawn::One(v) => Draw::One(*v),
            Drawn::Run(w) => Draw::Run(w@),
        }
    }
}

impl<'a> View for Binding<'a> {
    type V = Bound;

    open spec fn view(&self) -> Bound {
        Bound { name: self.name@, draw: self.drawn@ }
    }
}

impl<'a> View for FoldInput<'a> {
    type V = Seq<Bound>;

    open spec fn view(&self) -> Seq<Bound> {
        Seq::new(self.bindings@.len(), |j: int| self.bindings@[j]@)
    }
}

/// What the first binding with the given name binds the name to.
pub open spec fn lookup(record: Seq<Bound>, name: Seq<char>) -> Option<Draw>
    decreases record.len(),
{
    if record.len() == 0 {
        None
    } else if record[0].name == name {
        Some(record[0].draw)
    } else {
        lookup(record.subrange(1, record.len() as int), name)
    }
}

/// Whether no two bindings have the same name.
pub open spec fn is_mapping(record: Seq<Bound>) -> bool {
    forall|i: int, j: int|
        0 <= i < j < record.len() ==> (#[trigger] record[i]).name != (#[trigger] record[j]).name
}

/// In a fold input that binds no name twice, looking up the name of a
/// binding finds what that binding binds it to.
pub proof fn lemma_lookup_finds(record: Seq<Bound>, j: int)
    requires
        is_mapping(record),
        0 <= j < record.len(),
    ensures
        lookup(record, record[j].name) == Some(record[j].draw),
    decreases record.len(),
{
    if j > 0 {
        let rest = record.subrange(1, record.len() as int);
        assert(record[0].name != record[j].name);
        assert(rest[j - 1] == record[j]);
        assert forall|a: int, b: int| 0 <= a < b < rest.len() implies (#[trigger] rest[a]).name != (
        #[trigger] rest[b]).name by {
            assert(rest[a] == record[a + 1]);
            assert(rest[b] == record[b + 1]);
        }
        lemma_lookup_finds(rest, j - 1);
    }
}

/// A name that no binding has is bound to nothing.
pub proof fn lemma_lookup_misses(record: Seq<Bound>, name: Seq<char>)
    requires
        forall|j: int| 0 <= j < record.len() ==> (#[trigger] record[j]).name != name,
    ensures
        lookup(record, name) is None,
    decreases record.len(),
{
    if record.len() > 0 {
        let rest = record.subrange(1, record.len() as int);
        assert(record[0].name != name);
        assert forall|j: int| 0 <= j < rest.len() implies (#[trigger] rest[j]).name != name by {
            assert(rest[j] == record[j + 1]);
        }
        lemma_lookup_misses(rest, name);
    }
}

/// The entry of event `i` of a field, bound to the field's name.
pub open spec fn one_at(c: Column, i: int) -> Bound {
    Bound { name: c.name@, draw: Draw::One(c.steps@[i]) }
}

/// The `k` entries of a field from place `lo` on, bound to the field's name.
pub open spec fn run_at(c: Column, lo: int, k: int) -> Bound {
    Bound { name: c.name@, draw: Draw::Run(c.steps@.subrange(lo, lo + k)) }
}

/// The fold input of iteration `i` where each iteration takes one event: the
/// entry of event `i` of every field.
pub open spec fn single_record(t: Transcript, i: int) -> Seq<Bound> {
    Seq::new(t.fields().len(), |j: int| one_at(t.fields()[j], i))
}

/// The fold input that takes the `k` events from event `lo` on: that run of
/// every field and then, where the transcript has a carried field, the run of
/// the carried field's entries for the same events, which stand one place
/// further.
pub open spec fn runs_from(t: Transcript, lo: int, k: int) -> Seq<Bound> {
    let aligned = Seq::new(t.fields().len(), |j: int| run_at(t.fields()[j], lo, k));
    match t.carried() {
        Some(c) => aligned.push(run_at(c, lo + 1, k)),
        None => aligned,
    }
}

/// The fold input of iteration `i` where each iteration takes `k` events.
pub open spec fn batched_record(t: Transcript, i: int, k: int) -> Seq<Bound> {
    runs_from(t, i * k, k)
}

/// Whether the transcript has the events for `iteration_count` iterations of
/// `per_iteration_count` events each.
pub open spec fn sufficient(t: Transcript, iteration_count: nat, per_iteration_count: nat) -> bool {
    iteration_count * per_iteration_count <= t.steps() - 1
}

/// `count` successive runs of `k` entries from place `first` on, joined in
/// order.
pub open spec fn runs_joined(steps: Seq<Value>, first: int, count: nat, k: nat) -> Seq<Value>
    decreases count,
{
    if count == 0 {
        Seq::empty()
    } else {
        runs_joined(steps, first, (count - 1) as nat, k) + steps.subrange(
            first + (count - 1) * k,
            first + (count - 1) * k + k,
        )
    }
}

/// Successive runs follow one another without gap or overlap: joined in
/// order they are the stretch of entries from the first run's start to the
/// last run's end.
pub proof fn lemma_runs_tile(steps: Seq<Value>, first: int, count: nat, k: nat)
    requires
        0 <= first,
        first + count * k <= steps.len(),
    ensures
        runs_joined(steps, first, count, k) == steps.subrange(first, first + count * k),
    decreases count,
{
    if count == 0 {
        assert(count * k == 0) by (nonlinear_arith)
            requires
                count == 0,
        ;
        assert(steps.subrange(first, first) =~= Seq::<Value>::empty());
    } else {
        let before = (count - 1) as nat;
        assert(before * k + k == count * k) by (nonlinear_arith)
            requires
                before == count - 1,
        ;
        assert(before * k >= 0) by (nonlinear_arith);
        lemma_runs_tile(steps, first, before, k);
        assert(steps.subrange(first, first + before * k) + steps.subrange(
            first + before * k,
            first + before * k + k,
        ) =~= steps.subrange(first, first + count * k));
    }
}

/// An iteration within the count that a transcript suffices for has its
/// events within the transcript.
pub proof fn lemma_run_within(events: nat, iteration_count: nat, k: nat, i: int)
    requires
        iteration_count * k <= events,
        0 <= i < iteration_count,
    ensures
        0 <= i * k,
        i * k + k <= events,
        (i + 1) * k == i * k + k,
{
    assert(0 <= i * k) by (nonlinear_arith)
        requires
            0 <= i,
            0 <= k,
    ;
    assert((i + 1) * k == i * k + k) by (nonlinear_arith);
    assert((i + 1) * k <= iteration_count * k) by (nonlinear_arith)
        requires
            i + 1 <= iteration_count,
            0 <= k,
    ;
}

/// Where the transcript suffices, every fold input of a batched sharding
/// has one binding for each field and one for the carried field, each a run
/// of exactly `k` entries; the runs that successive iterations draw from a
/// field follow one another without gap or overlap from the field's first
/// event on, and those drawn from the carried field from its second entry on.
pub proof fn lemma_batched_windows(t: Transcript, iteration_count: nat, k: nat)
    requires
        t.wf(),
        sufficient(t, iteration_count, k),
    ensures
        forall|i: int, j: int|
            0 <= i < iteration_count && 0 <= j < t.fields().len() ==> (#[trigger] batched_record(
                t,
                i,
                k as int,
            )[j]).draw == Draw::Run(t.fields()[j].steps@.subrange(i * k, i * k + k))
                && t.fields()[j].steps@.subrange(i * k, i * k + k).len() == k,
        forall|i: int|
            0 <= i < iteration_count ==> (#[trigger] batched_record(t, i, k as int)).len()
                == t.fields().len() + (if t.carried() is Some {
                1int
            } else {
                0int
            }),
        forall|i: int|
            0 <= i < iteration_count && t.carried() is Some ==> (#[trigger] batched_record(
                t,
                i,
                k as int,
            )).last().draw == Draw::Run(t.carried().unwrap().steps@.subrange(i * k + 1, i * k + 1 + k))
                && t.carried().unwrap().steps@.subrange(i * k + 1, i * k + 1 + k).len() == k,
        forall|j: int|
            0 <= j < t.fields().len() ==> runs_joined(
                (#[trigger] t.fields()[j]).steps@,
                0,
                iteration_count,
                k,
            ) == t.fields()[j].steps@.subrange(0, (iteration_count * k) as int),
        t.carried() is Some ==> runs_joined(t.carried().unwrap().steps@, 1, iteration_count, k)
            == t.carried().unwrap().steps@.subrange(1, 1 + (iteration_count * k) as int),
{
    assert forall|i: int, j: int|
        0 <= i < iteration_count && 0 <= j < t.fields().len() implies (#[trigger] batched_record(
        t,
        i,
        k as int,
    )[j]).draw == Draw::Run(t.fields()[j].steps@.subrange(i * k, i * k + k))
        && t.fields()[j].steps@.subrange(i * k, i * k + k).len() == k by {
        lemma_run_within(t.events(), iteration_count, k, i);
    }
    assert forall|i: int|
        0 <= i < iteration_count && t.carried() is Some implies (#[trigger] batched_record(
        t,
        i,
        k as int,
    )).last().draw == Draw::Run(t.carried().unwrap().steps@.subrange(i * k + 1, i * k + 1 + k))
        && t.carried().unwrap().steps@.subrange(i * k + 1, i * k + 1 + k).len() == k by {
        lemma_run_within(t.events(), iteration_count, k, i);
    }
    assert forall|j: int| 0 <= j < t.fields().len() implies runs_joined(
        (#[trigger] t.fields()[j]).steps@,
        0,
        iteration_count,
        k,
    ) == t.fields()[j].steps@.subrange(0, (iteration_count * k) as int) by {
        lemma_runs_tile(t.fields()[j].steps@, 0, iteration_count, k);
    }
    if t.carried() is Some {
        lemma_runs_tile(t.carried().unwrap().steps@, 1, iteration_count, k);
    }
}

/// The fold inputs of a transcript bind the names of its columns, in the
/// columns' order and none twice: those of one event each the names of the
/// fields, those of runs of events the names of all columns.
pub proof fn lemma_records_are_mappings(t: Transcript, i: int, lo: int, k: int)
    requires
        t.wf(),
    ensures
        single_record(t, i).len() == t.fields().len(),
        forall|j: int|
            0 <= j < t.fields().len() ==> (#[trigger] single_record(t, i)[j]).name
                == t.fields()[j].name@,
        is_mapping(single_record(t, i)),
        runs_from(t, lo, k).len() == t.columns().len(),
        forall|j: int|
            0 <= j < t.columns().len() ==> (#[trigger] runs_from(t, lo, k)[j]).name
                == t.columns()[j].name@,
        is_mapping(runs_from(t, lo, k)),
{
    let cols = t.columns();
    let one = single_record(t, i);
    let runs = runs_from(t, lo, k);
    assert forall|j: int| 0 <= j < cols.len() implies (#[trigger] runs[j]).name
        == cols[j].name@ by {}
    assert forall|a: int, b: int| 0 <= a < b < runs.len() implies (#[trigger] runs[a]).name != (
    #[trigger] runs[b]).name by {
        assert(name_is_new(cols, b));
        assert(cols[a].name@ != cols[b].name@);
    }
    assert forall|a: int, b: int| 0 <= a < b < one.len() implies (#[trigger] one[a]).name != (
    #[trigger] one[b]).name by {
        assert(name_is_new(cols, b));
        assert(cols[a] == t.fields()[a]);
        assert(cols[b] == t.fields()[b]);
        assert(cols[a].name@ != cols[b].name@);
    }
}

/// Tells whether two texts are the same.
fn same_text(a: &str, b: &str) -> (same: bool)
    ensures
        same == (a@ == b@),
{
    String::from_str(a) == String::from_str(b)
}

impl<'a> FoldInput<'a> {
    /// What the fold input binds `name` to, if it binds it.
    pub fn get(&self, name: &str) -> (r: Option<Drawn<'a>>)
        ensures
            match r {
                Some(drawn) => lookup(self@, name@) == Some(drawn@),
                None => lookup(self@, name@) is None,
            },
    {
        let n = self.bindings.len();
        let mut i: usize = 0;
        assert(self@.subrange(0, n as int) =~= self@);
        while i < n
            invariant
                i <= n,
                n == self.bindings@.len(),
                lookup(self@, name@) == lookup(self@.subrange(i as int, n as int), name@),
            decreases n - i,
        {
            let ghost rest = self@.subrange(i as int, n as int);
            assert(rest[0] == self.bindings@[i as int]@);
            assert(rest.subrange(1, rest.len() as int) =~= self@.subrange(i + 1, n as int));
            if same_text(self.bindings[i].name, name) {
                return Some(self.bindings[i].drawn);
            }
            i = i + 1;
        }
        assert(self@.subrange(n as int, n as int).len() == 0);
        None
    }
}

/// Binds the run of `k` entries from place `lo` on to the field's name.
fn bind_run<'a>(c: &'a Column, lo: usize, k: usize) -> (b: Binding<'a>)
    requires
        lo + k <= c.steps@.len(),
    ensures
        b@ == run_at(*c, lo as int, k as int),
{
    let len = c.steps.len();
    assert(lo + k <= len);
    let run = slice_subrange(c.steps.as_slice(), lo, lo + k);
    Binding { name: c.name.as_str(), drawn: Drawn::Run(run) }
}

impl Transcript {
    /// The fold input that takes event `i`.
    fn draw_one<'a>(&'a self, i: usize) -> (rec: FoldInput<'a>)
        requires
            i < self.events(),
        ensures
            rec@ == single_record(*self, i as int),
    {
        let n = self.num_fields();
        let mut bindings: Vec<Binding<'a>> = Vec::new();
        let mut j: usize = 0;
        while j < n
            invariant
                j <= n,
                n == self.fields().len(),
                i < self.events(),
                bindings@.len() == j,
                forall|x: int| 0 <= x < j ==> (#[trigger] bindings@[x])@ == one_at(self.fields()[x], i as int),
            decreases n - j,
        {
            let c = self.field(j);
            bindings.push(Binding { name: c.name.as_str(), drawn: Drawn::One(&c.steps[i]) });
            j = j + 1;
        }
        let rec = FoldInput { bindings };
        assert(rec@ =~= single_record(*self, i as int));
        rec
    }

    /// The fold input that takes the `k` events from event `lo` on.
    fn draw_runs<'a>(&'a self, lo: usize, k: usize) -> (rec: FoldInput<'a>)
        requires
            lo + k <= self.events(),
        ensures
            rec@ == runs_from(*self, lo as int, k as int),
    {
        let n = self.num_fields();
        let mut bindings: Vec<Binding<'a>> = Vec::new();
        let mut j: usize = 0;
        while j < n
            invariant
                j <= n,
                n == self.fields().len(),
                lo + k <= self.events(),
                bindings@.len() == j,
                forall|x: int|
                    0 <= x < j ==> (#[trigger] bindings@[x])@ == run_at(
                        self.fields()[x],
                        lo as int,
                        k as int,
                    ),
            decreases n - j,
        {
            let c = self.field(j);
            bindings.push(bind_run(c, lo, k));
            j = j + 1;
        }
        match self.carried_field() {
            Some(c) => {
                let len = c.steps.len();
                assert(lo + 1 + k <= len);
                bindings.push(bind_run(c, lo + 1, k));
            },
            None => {},
        }
        let rec = FoldInput { bindings };
        assert(rec@ =~= runs_from(*self, lo as int, k as int));
        rec
    }

    /// Shards the transcript for iterations of one event each: one fold
    /// input for each step after step zero, in order.
    pub fn shard_single<'a>(&'a self) -> (out: Sharded<'a>)
        ensures
            out.records@.len() == self.steps() - 1,
            forall|i: int|
                0 <= i < out.records@.len() ==> (#[trigger] out.records@[i])@ == single_record(
                    *self,
                    i,
                ),
            out.public_input@ == self.start(),
    {
        let events = self.num_events();
        let mut records: Vec<FoldInput<'a>> = Vec::new();
        let mut i: usize = 0;
        while i < events
            invariant
                i <= events,
                events == self.events(),
                records@.len() == i,
                forall|x: int| 0 <= x < i ==> (#[trigger] records@[x])@ == single_record(*self, x),
            decreases events - i,
        {
            records.push(self.draw_one(i));
            i = i + 1;
        }
        Sharded { records, public_input: self.public_input() }
    }

    /// Shards the transcript for `iteration_count` iterations of
    /// `per_iteration_count` events each, or refuses where the transcript
    /// does not have that many events.
    pub fn shard_batched<'a>(&'a self, iteration_count: usize, per_iteration_count: usize) -> (r:
        Result<Sharded<'a>, ShardError>)
        ensures
            match r {
                Ok(out) => {
                    &&& sufficient(*self, iteration_count as nat, per_iteration_count as nat)
                    &&& out.records@.len() == iteration_count
                    &&& forall|i: int|
                        0 <= i < iteration_count ==> (#[trigger] out.records@[i])@
                            == batched_record(*self, i, per_iteration_count as int)
                    &&& out.public_input@ == self.start()
                },
                Err(e) => {
                    &&& !sufficient(*self, iteration_count as nat, per_iteration_count as nat)
                    &&& e == ShardError::InsufficientTranscript
                },
            },
    {
        let events = self.num_events();
        let total = match iteration_count.checked_mul(per_iteration_count) {
            Some(total) => total,
            None => {
                return Err(ShardError::InsufficientTranscript);
            },
        };
        if total > events {
            return Err(ShardError::InsufficientTranscript);
        }
        let k = per_iteration_count;
        let mut records: Vec<FoldInput<'a>> = Vec::new();
        let mut i: usize = 0;
        let mut lo: usize = 0;
        while i < iteration_count
            invariant
                i <= iteration_count,
                events == self.events(),
                k == per_iteration_count,
                iteration_count * k <= events,
                lo == i * k,
                records@.len() == i,
                forall|x: int|
                    0 <= x < i ==> (#[trigger] records@[x])@ == batched_record(*self, x, k as int),
            decreases iteration_count - i,
        {
            proof {
                lemma_run_within(events as nat, iteration_count as nat, k as nat, i as int);
            }
            records.push(self.draw_runs(lo, k));
            lo = lo + k;
            i = i + 1;
        }
        Ok(Sharded { records, public_input: self.public_input() })
    }
}

} // verus!
