use vstd::prelude::*;

verus! {

/// What the scene did with the ray traced last.
#[derive(Clone, Copy, Debug, PartialEq, Eq, Structural)]
pub enum Bounce {
    /// The ray hit nothing.
    Missed,
    /// The ray hit a surface whose material absorbed it.
    Absorbed,
    /// The ray hit a surface and left it as a new ray, its color scaled by
    /// the material's attenuation.
    Scattered,
}

/// How a light path ends.
#[derive(Clone, Copy, Debug, PartialEq, Eq, Structural)]
pub enum PathEnd {
    /// No light: a material absorbed the ray, or the bounces ran out.
    Dark,
    /// The last ray escaped: the path carries the sky's color, scaled by the
    /// attenuations met on the way.
    Sky,
}

/// What a path asks for next.
#[derive(Clone, Copy, Debug, PartialEq, Eq, Structural)]
pub enum PathStep {
    /// Trace the current ray against the scene.
    Trace,
    /// The path is over.
    End(PathEnd),
}

/// How a path allowed `depth` traces ends after the scene answered the traces
/// with `bounces`, or `None` while it still needs another trace.
pub open spec fn path_end(depth: nat, bounces: Seq<Bounce>) -> Option<PathEnd>
    decreases bounces.len(),
{
    if depth == 0 {
        Some(PathEnd::Dark)
    } else if bounces.len() == 0 {
        None
    } else {
        match bounces[0] {
            Bounce::Missed => Some(PathEnd::Sky),
            Bounce::Absorbed => Some(PathEnd::Dark),
            Bounce::Scattered => path_end((depth - 1) as nat, bounces.drop_first()),
        }
    }
}

/// A path's history: the traces it may make, and the scene's answers so far.
pub struct PathView {
    pub max_depth: nat,
    pub bounces: Seq<Bounce>,
}

/// The step a path at `v` asks for.
pub open spec fn step_of(v: PathView) -> PathStep {
    match path_end(v.max_depth, v.bounces) {
        Some(end) => PathStep::End(end),
        None => PathStep::Trace,
    }
}

/// The decisions of one light path through the scene: trace while bounces are
/// left, stop in the dark when a material absorbs the ray or the bounces run
/// out, and stop at the sky when a ray escapes.
pub struct Path {
    depth_left: u32,
    end: Option<PathEnd>,
    max_depth: Ghost<nat>,
    bounces: Ghost<Seq<Bounce>>,
}

impl View for Path {
    type V = PathView;

    closed spec fn view(&self) -> PathView {
        PathView { max_depth: self.max_depth@, bounces: self.bounces@ }
    }
}

/// While a path is unfinished, it has met only scatterings, fewer than its
/// depth, and the next answer decides as a path with the depth left would.
proof fn lemma_extend(depth: nat, bounces: Seq<Bounce>, b: Bounce)
    requires
        path_end(depth, bounces) is None,
    ensures
        bounces.len() < depth,
        path_end(depth, bounces.push(b)) == path_end(
            (depth - bounces.len()) as nat,
            seq![b],
        ),
    decreases bounces.len(),
{
    if bounces.len() > 0 {
        lemma_extend((depth - 1) as nat, bounces.drop_first(), b);
        assert(bounces.push(b).drop_first() =~= bounces.drop_first().push(b));
    } else {
        assert(bounces.push(b) =~= seq![b]);
    }
}

impl Path {
    pub closed spec fn wf(&self) -> bool {
        &&& self.end == path_end(self.max_depth@, self.bounces@)
        &&& self.end is None ==> self.depth_left + self.bounces@.len() == self.max_depth@
    }

    /// A path allowed `max_depth` traces; with none allowed it is dark at once.
    pub fn new(max_depth: u32) -> (r: Path)
        ensures
            r.wf(),
            r@ == (PathView { max_depth: max_depth as nat, bounces: Seq::empty() }),
            max_depth == 0 ==> step_of(r@) == PathStep::End(PathEnd::Dark),
            max_depth > 0 ==> step_of(r@) == PathStep::Trace,
    {
        let end = if max_depth == 0 {
            Some(PathEnd::Dark)
        } else {
            None
        };
        Path { depth_left: max_depth, end, max_depth: Ghost(max_depth as nat), bounces: Ghost(Seq::empty()) }
    }

    /// What the path asks for next.
    pub fn step(&self) -> (r: PathStep)
        requires
            self.wf(),
        ensures
            r == step_of(self@),
    {
        match self.end {
            Some(end) => PathStep::End(end),
            None => PathStep::Trace,
        }
    }

    /// Takes the scene's answer to the trace the path asked for.
    pub fn record(&mut self, b: Bounce)
        requires
            old(self).wf(),
            step_of(old(self)@) == PathStep::Trace,
        ensures
            final(self).wf(),
            final(self)@ == (PathView { bounces: old(self)@.bounces.push(b), ..old(self)@ }),
    {
        proof {
            lemma_extend(self.max_depth@, self.bounces@, b);
        }
        let ghost rest = seq![b];
        assert(rest.drop_first() =~= Seq::<Bounce>::empty());
        assert(path_end(self.depth_left as nat, rest) == match b {
            Bounce::Missed => Some(PathEnd::Sky),
            Bounce::Absorbed => Some(PathEnd::Dark),
            Bounce::Scattered => path_end((self.depth_left - 1) as nat, Seq::empty()),
        });
        self.bounces = Ghost(self.bounces@.push(b));
        match b {
            Bounce::Missed => {
                self.end = Some(PathEnd::Sky);
            },
            Bounce::Absorbed => {
                self.end = Some(PathEnd::Dark);
            },
            Bounce::Scattered => {
                self.depth_left = self.depth_left - 1;
                if self.depth_left == 0 {
                    self.end = Some(PathEnd::Dark);
                }
            },
        }
    }
}

/// A path allowed no trace is dark, whatever the scene would answer: a ray
/// evaluated with depth zero is black.
pub proof fn zero_depth_is_dark(bounces: Seq<Bounce>)
    ensures
        path_end(0, bounces) == Some(PathEnd::Dark),
{
}

/// A path allowed `depth` traces has ended once the scene has answered
/// `depth` of them: no path traces more than its depth.
pub proof fn path_ends_within_depth(depth: nat, bounces: Seq<Bounce>)
    requires
        bounces.len() >= depth,
    ensures
        path_end(depth, bounces) is Some,
    decreases bounces.len(),
{
    if depth > 0 && bounces[0] == Bounce::Scattered {
        path_ends_within_depth((depth - 1) as nat, bounces.drop_first());
    }
}

} // verus!
