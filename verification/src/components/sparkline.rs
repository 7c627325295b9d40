//! The samples behind a small live graph.
use vstd::prelude::*;

verus! {

/// How many samples a graph keeps. It is also the graph's fixed width, so that the line
/// moves to the left as it fills and does not stretch.
pub const HISTORY: usize = 60;

/// The samples of one graph, oldest first.
#[derive(Debug)]
pub struct Sparkline<T> {
    pub history: Vec<T>,
}

/// What happens to a graph.
#[derive(Debug)]
pub enum SparklineInput<T> {
    /// A sample came in.
    Push(T),
    /// The graph must be painted anew, because its size changed.
    Redraw,
}

/// The samples with one more; the oldest goes where there are too many.
pub open spec fn sampled<T>(history: Seq<T>, sample: T) -> Seq<T> {
    let more = history.push(sample);
    if more.len() > HISTORY {
        more.drop_first()
    } else {
        more
    }
}

impl<T> Sparkline<T> {
    /// A graph without samples.
    pub fn new() -> (r: Sparkline<T>)
        ensures
            r.history@ == Seq::<T>::empty(),
    {
        Sparkline { history: Vec::new() }
    }

    /// Answers what happens. The graph is to be painted anew in either case.
    pub fn update(&mut self, msg: SparklineInput<T>)
        ensures
            final(self).history@ == match msg {
                SparklineInput::Push(sample) => sampled(old(self).history@, sample),
                SparklineInput::Redraw => old(self).history@,
            },
    {
        match msg {
            SparklineInput::Push(sample) => {
                self.history.push(sample);
                if self.history.len() > HISTORY {
                    let ghost more = self.history@;
                    let _ = self.history.remove(0);
                    proof {
                        assert(self.history@ =~= more.drop_first());
                    }
                }
            },
            SparklineInput::Redraw => {},
        }
    }
}

/// The last samples of all that came in, as many as a graph keeps.
pub open spec fn last_samples<T>(samples: Seq<T>) -> Seq<T> {
    if samples.len() > HISTORY {
        samples.skip(samples.len() - HISTORY)
    } else {
        samples
    }
}

/// What a graph keeps are the last samples that came in, and never too many: if that
/// held before a sample came in, it holds after.
pub proof fn history_is_the_last_samples<T>(samples: Seq<T>, sample: T)
    ensures
        last_samples(Seq::<T>::empty()) == Seq::<T>::empty(),
        sampled(last_samples(samples), sample) == last_samples(samples.push(sample)),
        last_samples(samples).len() <= HISTORY,
{
    assert(sampled(last_samples(samples), sample) =~= last_samples(samples.push(sample)));
}

/// A new sample comes last. Up to sixty samples all are kept, in their order; from there
/// on the oldest goes.
pub proof fn sixty_samples_are_kept<T>(history: Seq<T>, sample: T)
    requires
        history.len() <= 60,
    ensures
        history.len() < 60 ==> sampled(history, sample) == history.push(sample),
        history.len() == 60 ==> sampled(history, sample) == history.drop_first().push(sample),
{
    if history.len() == 60 {
        assert(sampled(history, sample) =~= history.drop_first().push(sample));
    }
}

} // verus!
