use vstd::prelude::*;
use crate::event::EventView;
use crate::event::TelemetryEvent;

verus! {

/// One named transformation step. Implementations are supplied by the
/// embedder; the pipeline only promises to thread each event through
/// `process` in registration order.
pub trait Processor {
    /// The transformation this stage performs, at the level of views.
    /// Unless an implementation overrides it, a stage is specified as the
    /// identity; an implementation verified here overrides it with the
    /// transformation it actually performs, and one written outside the
    /// verifier is trusted to meet the contract of `process`.
    open spec fn spec_process(&self, input: EventView) -> EventView {
        input
    }

    /// A stable label for diagnostics.
    fn name(&self) -> &str;

    /// Transforms one event into its successor.
    fn process(&self, input: TelemetryEvent) -> (out: TelemetryEvent)
        ensures
            out@ == self.spec_process(input@),
    ;
}

/// The event that results from threading `e` through `stages` in order.
pub open spec fn run_spec(stages: Seq<Box<dyn Processor>>, e: EventView) -> EventView
    decreases stages.len(),
{
    if stages.len() == 0 {
        e
    } else {
        run_spec(stages.drop_first(), stages[0].spec_process(e))
    }
}

/// An ordered sequence of stages and the orchestrator that applies them
/// one after another to a single event.
pub struct Pipeline {
    processors: Vec<Box<dyn Processor>>,
}

impl Pipeline {
    /// The registered stages, in registration order.
    pub closed spec fn stages(&self) -> Seq<Box<dyn Processor>> {
        self.processors@
    }

    /// An empty pipeline: no stages registered.
    pub fn new() -> (r: Self)
        ensures
            r.stages() == Seq::<Box<dyn Processor>>::empty(),
    {
        let processors: Vec<Box<dyn Processor>> = Vec::new();
        proof {
            assert(processors@ =~= Seq::<Box<dyn Processor>>::empty());
        }
        Self { processors }
    }

    /// Appends `processor` at the end of the stage sequence; nothing else
    /// changes. Registering equal stages twice runs the stage twice.
    pub fn add(&mut self, processor: Box<dyn Processor>)
        ensures
            final(self).stages() == old(self).stages().push(processor),
    {
        self.processors.push(processor);
    }

    /// Threads `evt` through every registered stage in registration order:
    /// the output of each stage is the input of the next, and the result is
    /// the last stage's output - or `evt` itself when no stage is registered.
    pub fn run(&self, evt: TelemetryEvent) -> (out: TelemetryEvent)
        ensures
            out@ == run_spec(self.stages(), evt@),
    {
        let mut current = evt;
        let ghost all = self.processors@;
        let ghost e0 = evt@;
        let n = self.processors.len();
        proof {
            assert(all.skip(0) =~= all);
        }
        for i in 0..n
            invariant
                n == all.len(),
                self.processors@ == all,
                run_spec(all, e0) == run_spec(all.skip(i as int), current@),
        {
            proof {
                assert(all.skip(i as int).drop_first() =~= all.skip(i + 1));
            }
            current = self.processors[i].process(current);
        }
        proof {
            assert(all.skip(n as int).len() == 0);
        }
        current
    }
}

/// The identity law: a pipeline with no stages returns every event
/// unchanged.
pub proof fn lemma_identity(stages: Seq<Box<dyn Processor>>, e: EventView)
    requires
        stages.len() == 0,
    ensures
        run_spec(stages, e) == e,
{
}

/// Splitting a stage sequence anywhere splits the run: threading `e`
/// through `s1 + s2` is threading it through `s1`, then through `s2`.
pub proof fn lemma_run_append(s1: Seq<Box<dyn Processor>>, s2: Seq<Box<dyn Processor>>, e: EventView)
    ensures
        run_spec(s1 + s2, e) == run_spec(s2, run_spec(s1, e)),
    decreases s1.len(),
{
    if s1.len() == 0 {
        assert(s1 + s2 =~= s2);
    } else {
        assert((s1 + s2).drop_first() =~= s1.drop_first() + s2);
        lemma_run_append(s1.drop_first(), s2, s1[0].spec_process(e));
    }
}

/// A one-stage pipeline applies its single stage.
pub proof fn lemma_run_one(stages: Seq<Box<dyn Processor>>, e: EventView)
    requires
        stages.len() == 1,
    ensures
        run_spec(stages, e) == stages[0].spec_process(e),
{
    assert(stages.drop_first().len() == 0);
    assert(run_spec(stages.drop_first(), stages[0].spec_process(e)) == stages[0].spec_process(
        e,
    ));
}

/// The composition law: a pipeline holding exactly the stages A, B in
/// that order applies A first, then B to A's output.
pub proof fn lemma_composition(stages: Seq<Box<dyn Processor>>, e: EventView)
    requires
        stages.len() == 2,
    ensures
        run_spec(stages, e) == stages[1].spec_process(stages[0].spec_process(e)),
{
    let tail = stages.drop_first();
    assert(tail.len() == 1);
    assert(tail[0] == stages[1]);
    assert(run_spec(stages, e) == run_spec(tail, stages[0].spec_process(e)));
    lemma_run_one(tail, stages[0].spec_process(e));
}

/// Order sensitivity: where two stages do not commute on an event, the
/// pipeline that registers them in one order differs from the pipeline
/// that registers them in the other.
pub proof fn lemma_order_sensitive(s1: Seq<Box<dyn Processor>>, s2: Seq<Box<dyn Processor>>, e: EventView)
    requires
        s1.len() == 2,
        s2.len() == 2,
        s2[0] == s1[1],
        s2[1] == s1[0],
        s1[1].spec_process(s1[0].spec_process(e)) != s1[0].spec_process(s1[1].spec_process(e)),
    ensures
        run_spec(s1, e) != run_spec(s2, e),
{
    lemma_composition(s1, e);
    lemma_composition(s2, e);
}

/// Payload integrity: where every registered stage leaves the payload
/// alone, the whole run leaves every key and value of the payload alone.
pub proof fn lemma_payload_integrity(stages: Seq<Box<dyn Processor>>, e: EventView)
    requires
        forall|i: int, ev: EventView| 0 <= i < stages.len()
            ==> (#[trigger] stages[i].spec_process(ev)).payload == ev.payload,
    ensures
        run_spec(stages, e).payload == e.payload,
    decreases stages.len(),
{
    if stages.len() > 0 {
        assert(stages[0].spec_process(e).payload == e.payload);
        assert forall|i: int, ev: EventView| 0 <= i < stages.drop_first().len() implies (
        #[trigger] stages.drop_first()[i].spec_process(ev)).payload == ev.payload by {
            assert(stages.drop_first()[i] == stages[i + 1]);
        }
        lemma_payload_integrity(stages.drop_first(), stages[0].spec_process(e));
    }
}

} // verus!
