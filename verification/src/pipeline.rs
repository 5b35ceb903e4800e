//! The processor pipeline and its deterministic textual rendering.
//!
//! A pipeline is a list of pipes, in build order from the sources up; each
//! pipe holds the parallel processors of one stage, identified here by a
//! kind tag.  `display_indent` walks the pipes top-down and prints one line
//! per pipe, indented two spaces per level; the fan-in pipe (a merge
//! processor) prints a line naming the stage below it and itself.  The
//! rendering is a pure function of the pipeline's shape.

use vstd::prelude::*;
use vstd::string::StringExecFns;

verus! {

/// The kind of a processor, as the pretty-printer names it.
#[derive(Clone, Copy, PartialEq, Eq, Structural, Debug)]
pub enum ProcessorKind {
    EmptyProcessor,
    MergeProcessor,
    SourceTransform,
    FilterTransform,
    ProjectionTransform,
    AggregatePartialTransform,
    AggregateFinalTransform,
    LimitTransform,
    PartialSortTransform,
    MergingSortTransform,
    MergingSortedProcessor,
}

impl ProcessorKind {
    /// The display name of this processor kind.
    pub open spec fn spec_name(self) -> Seq<char> {
        match self {
            ProcessorKind::EmptyProcessor => "EmptyProcessor"@,
            ProcessorKind::MergeProcessor => "MergeProcessor"@,
            ProcessorKind::SourceTransform => "SourceTransform"@,
            ProcessorKind::FilterTransform => "FilterTransform"@,
            ProcessorKind::ProjectionTransform => "ProjectionTransform"@,
            ProcessorKind::AggregatePartialTransform => "AggregatePartialTransform"@,
            ProcessorKind::AggregateFinalTransform => "AggregateFinalTransform"@,
            ProcessorKind::LimitTransform => "LimitTransform"@,
            ProcessorKind::PartialSortTransform => "PartialSortTransform"@,
            ProcessorKind::MergingSortTransform => "MergingSortTransform"@,
            ProcessorKind::MergingSortedProcessor => "MergingSortedProcessor"@,
        }
    }

    /// The display name, executably.
    pub fn name(&self) -> (r: &'static str)
        ensures
            r@ == self.spec_name(),
    {
        match self {
            ProcessorKind::EmptyProcessor => "EmptyProcessor",
            ProcessorKind::MergeProcessor => "MergeProcessor",
            ProcessorKind::SourceTransform => "SourceTransform",
            ProcessorKind::FilterTransform => "FilterTransform",
            ProcessorKind::ProjectionTransform => "ProjectionTransform",
            ProcessorKind::AggregatePartialTransform => "AggregatePartialTransform",
            ProcessorKind::AggregateFinalTransform => "AggregateFinalTransform",
            ProcessorKind::LimitTransform => "LimitTransform",
            ProcessorKind::PartialSortTransform => "PartialSortTransform",
            ProcessorKind::MergingSortTransform => "MergingSortTransform",
            ProcessorKind::MergingSortedProcessor => "MergingSortedProcessor",
        }
    }
}

/// One stage of the pipeline: its parallel processors.
pub struct Pipe {
    /// The processors of this stage, one per parallel way.
    pub processors: Vec<ProcessorKind>,
}

impl View for Pipe {
    type V = Seq<ProcessorKind>;

    open spec fn view(&self) -> Seq<ProcessorKind> {
        self.processors@
    }
}

impl Pipe {
    /// A pipe of `n` processors of one kind.
    pub fn create(kind: ProcessorKind, n: usize) -> (r: Pipe)
        ensures
            r@.len() == n,
            forall|i: int| 0 <= i < n ==> (#[trigger] r@[i]) == kind,
    {
        let mut processors: Vec<ProcessorKind> = Vec::new();
        let mut i: usize = 0;
        while i < n
            invariant
                i <= n,
                processors@.len() == i,
                forall|j: int| 0 <= j < i ==> (#[trigger] processors@[j]) == kind,
            decreases n - i,
        {
            processors.push(kind);
            i += 1;
        }
        Pipe { processors }
    }

    /// How many parallel ways the pipe has.
    pub fn nums(&self) -> (r: usize)
        ensures
            r == self@.len(),
    {
        self.processors.len()
    }

    /// The processor at the given way.
    pub fn processor_by_index(&self, i: usize) -> (r: ProcessorKind)
        requires
            i < self@.len(),
        ensures
            r == self@[i as int],
    {
        self.processors[i]
    }
}

/// A directed pipeline: its pipes in build order, sources first.
pub struct Pipeline {
    /// The pipes, from the source stage up to the final stage.
    pub pipes: Vec<Pipe>,
}

impl View for Pipeline {
    type V = Seq<Seq<ProcessorKind>>;

    open spec fn view(&self) -> Seq<Seq<ProcessorKind>> {
        self.pipes@.map_values(|p: Pipe| p@)
    }
}

/// A well-formed pipeline: no pipe is empty, and a fan-in pipe has a
/// stage below it.
pub open spec fn pipeline_wf(pipes: Seq<Seq<ProcessorKind>>) -> bool {
    &&& forall|i: int| 0 <= i < pipes.len() ==> (#[trigger] pipes[i]).len() > 0
    &&& forall|i: int|
        0 <= i < pipes.len() && (#[trigger] pipes[i])[0] == ProcessorKind::MergeProcessor ==> i > 0
}

/// The decimal digit character of `d`.
pub open spec fn spec_digit(d: int) -> char {
    if d == 0 {
        '0'
    } else if d == 1 {
        '1'
    } else if d == 2 {
        '2'
    } else if d == 3 {
        '3'
    } else if d == 4 {
        '4'
    } else if d == 5 {
        '5'
    } else if d == 6 {
        '6'
    } else if d == 7 {
        '7'
    } else if d == 8 {
        '8'
    } else {
        '9'
    }
}

/// The decimal rendering of a non-negative number.
pub open spec fn spec_decimal(n: int) -> Seq<char>
    decreases n,
{
    if n < 10 {
        seq![spec_digit(n)]
    } else {
        spec_decimal(n / 10) + seq![spec_digit(n % 10)]
    }
}

/// The decimal digit of `d`, as a string slice.
fn digit_str(d: usize) -> (r: &'static str)
    requires
        d < 10,
    ensures
        r@ == seq![spec_digit(d as int)],
{
    proof {
        reveal_strlit("0");
        reveal_strlit("1");
        reveal_strlit("2");
        reveal_strlit("3");
        reveal_strlit("4");
        reveal_strlit("5");
        reveal_strlit("6");
        reveal_strlit("7");
        reveal_strlit("8");
        reveal_strlit("9");
    }
    let r = match d {
        0 => "0",
        1 => "1",
        2 => "2",
        3 => "3",
        4 => "4",
        5 => "5",
        6 => "6",
        7 => "7",
        8 => "8",
        _ => "9",
    };
    proof {
        assert(r@ =~= seq![spec_digit(d as int)]);
    }
    r
}

/// Renders a number in decimal.
fn decimal_string(n: usize) -> (r: String)
    ensures
        r@ == spec_decimal(n as int),
    decreases n,
{
    if n < 10 {
        String::from_str(digit_str(n))
    } else {
        let mut s = decimal_string(n / 10);
        s.append(digit_str(n % 10));
        s
    }
}

/// The word for a stage's width: singular exactly for one way.
pub open spec fn spec_ways_word(w: int) -> Seq<char> {
    if w == 1 {
        "processor"@
    } else {
        "processors"@
    }
}

/// The entry printed for pipe `p`: nothing for an empty processor, the
/// fan-in line for a merge processor, and `name × ways word` otherwise.
pub open spec fn spec_entry(pipes: Seq<Seq<ProcessorKind>>, p: int) -> Seq<char> {
    let kind = pipes[p][0];
    let w = pipes[p].len() as int;
    if kind == ProcessorKind::EmptyProcessor {
        Seq::empty()
    } else if kind == ProcessorKind::MergeProcessor {
        let prev = pipes[p - 1][0];
        let pw = pipes[p - 1].len() as int;
        "Merge ("@ + prev.spec_name() + " \u{d7} "@ + spec_decimal(pw) + " "@ + spec_ways_word(pw)
            + ") to ("@ + kind.spec_name() + " \u{d7} "@ + spec_decimal(w) + ")"@
    } else {
        kind.spec_name() + " \u{d7} "@ + spec_decimal(w) + " "@ + spec_ways_word(w)
    }
}

/// The indentation of depth `d`: two spaces per level.
pub open spec fn spec_indent(d: int) -> Seq<char>
    decreases d,
{
    if d <= 0 {
        Seq::empty()
    } else {
        spec_indent(d - 1) + "  "@
    }
}

/// The line printed at walk depth `d`: a newline, the indentation, the
/// connector, and the entry of the pipe walked there (top-down).
pub open spec fn spec_line(pipes: Seq<Seq<ProcessorKind>>, d: int) -> Seq<char> {
    "\n"@ + spec_indent(d + 1) + "\u{2514}\u{2500} "@ + spec_entry(pipes, pipes.len() - 1 - d)
}

/// The rendering from walk depth `d` on.
pub open spec fn spec_render_from(pipes: Seq<Seq<ProcessorKind>>, d: int) -> Seq<char>
    decreases pipes.len() - d,
    when d >= 0
{
    if d >= pipes.len() {
        Seq::empty()
    } else {
        spec_line(pipes, d) + spec_render_from(pipes, d + 1)
    }
}

/// The full rendering of a pipeline: one line per pipe, top-down.
pub open spec fn spec_render(pipes: Seq<Seq<ProcessorKind>>) -> Seq<char> {
    spec_render_from(pipes, 0)
}

/// The graphviz rendering, a fixed placeholder frame.
pub open spec fn spec_graphviz() -> Seq<char> {
    "// Begin DataFuse GraphViz Pipeline (see https://graphviz.org)\ndigraph {\n}\n// End DataFuse GraphViz Pipeline\n"@
}

impl Pipeline {
    /// A pipeline over the given pipes, sources first.
    pub fn create(pipes: Vec<Pipe>) -> (r: Pipeline)
        ensures
            r@ == pipes@.map_values(|p: Pipe| p@),
    {
        Pipeline { pipes }
    }

    /// Renders the pipeline one indented line per pipe, top-down, with
    /// the fan-in pipe printed as a merge line.  The output is a pure
    /// function of the pipeline's shape.
    pub fn display_indent(&self) -> (r: String)
        requires
            pipeline_wf(self@),
        ensures
            r@ == spec_render(self@),
    {
        let ghost pipes = self@;
        let len = self.pipes.len();
        let mut s = String::new();
        let mut d: usize = 0;
        proof {
            assert(s@ + spec_render_from(pipes, 0) =~= spec_render_from(pipes, 0));
        }
        while d < len
            invariant
                pipeline_wf(pipes),
                pipes == self@,
                len == pipes.len(),
                d <= len,
                spec_render(pipes) == s@ + spec_render_from(pipes, d as int),
            decreases len - d,
        {
            let line = self.line_string(d);
            s.append(line.as_str());
            proof {
                assert(spec_render_from(pipes, d as int) == spec_line(pipes, d as int)
                    + spec_render_from(pipes, d + 1));
                assert(s@ + spec_render_from(pipes, d + 1) =~= spec_render(pipes));
            }
            d += 1;
        }
        proof {
            assert(s@ =~= spec_render(pipes));
        }
        s
    }

    /// Builds the line printed at walk depth `d`.
    fn line_string(&self, d: usize) -> (r: String)
        requires
            pipeline_wf(self@),
            d < self@.len(),
        ensures
            r@ == spec_line(self@, d as int),
    {
        let ghost pipes = self@;
        let n_pipes = self.pipes.len();
        assert(d < n_pipes);
        let mut line = String::from_str("\n");
        let mut k: usize = 0;
        while k < d + 1
            invariant
                d < n_pipes,
                k <= d + 1,
                line@ == "\n"@ + spec_indent(k as int),
            decreases d + 1 - k,
        {
            line.append("  ");
            proof {
                assert(("\n"@ + spec_indent(k as int)) + "  "@ =~= "\n"@ + spec_indent(
                    k + 1,
                ));
            }
            k += 1;
        }
        line.append("\u{2514}\u{2500} ");
        let p = self.pipes.len() - 1 - d;
        assert(self@[p as int] == self.pipes@[p as int]@);
        let entry = self.entry_string(p);
        line.append(entry.as_str());
        proof {
            assert(line@ =~= spec_line(pipes, d as int));
        }
        line
    }

    /// Builds the entry printed for pipe `p`.
    fn entry_string(&self, p: usize) -> (r: String)
        requires
            pipeline_wf(self@),
            p < self@.len(),
        ensures
            r@ == spec_entry(self@, p as int),
    {
        let ghost pipes = self@;
        assert(self@[p as int] == self.pipes@[p as int]@);
        let pipe = &self.pipes[p];
        let ways = pipe.nums();
        let kind = pipe.processor_by_index(0);
        match kind {
            ProcessorKind::EmptyProcessor => {
                let r = String::new();
                proof {
                    assert(r@ =~= spec_entry(pipes, p as int));
                }
                r
            },
            ProcessorKind::MergeProcessor => {
                assert(p >= 1);
                assert(self@[p as int - 1] == self.pipes@[p as int - 1]@);
                let prev_pipe = &self.pipes[p - 1];
                let prev_ways = prev_pipe.nums();
                let prev_kind = prev_pipe.processor_by_index(0);
                let mut r = String::from_str("Merge (");
                r.append(prev_kind.name());
                r.append(" \u{d7} ");
                let pw = decimal_string(prev_ways);
                r.append(pw.as_str());
                r.append(" ");
                if prev_ways == 1 {
                    r.append("processor");
                } else {
                    r.append("processors");
                }
                r.append(") to (");
                r.append(kind.name());
                r.append(" \u{d7} ");
                let w = decimal_string(ways);
                r.append(w.as_str());
                r.append(")");
                proof {
                    assert(r@ =~= spec_entry(pipes, p as int));
                }
                r
            },
            _ => {
                let mut r = String::from_str(kind.name());
                r.append(" \u{d7} ");
                let w = decimal_string(ways);
                r.append(w.as_str());
                r.append(" ");
                if ways == 1 {
                    r.append("processor");
                } else {
                    r.append("processors");
                }
                proof {
                    assert(r@ =~= spec_entry(pipes, p as int));
                }
                r
            },
        }
    }

    /// Renders the fixed graphviz frame for the pipeline.
    pub fn display_graphviz(&self) -> (r: String)
        ensures
            r@ == spec_graphviz(),
    {
        String::from_str(
            "// Begin DataFuse GraphViz Pipeline (see https://graphviz.org)\ndigraph {\n}\n// End DataFuse GraphViz Pipeline\n",
        )
    }
}

/// The rendering reads only each pipe's width and first processor: two
/// pipelines of equal shape render equal strings.
pub proof fn lemma_render_pure(a: Seq<Seq<ProcessorKind>>, b: Seq<Seq<ProcessorKind>>)
    requires
        pipeline_wf(a),
        a.len() == b.len(),
        forall|i: int| 0 <= i < a.len() ==> (#[trigger] a[i]).len() == b[i].len(),
        forall|i: int| 0 <= i < a.len() ==> (#[trigger] a[i])[0] == b[i][0],
    ensures
        spec_render(a) == spec_render(b),
{
    lemma_render_pure_from(a, b, 0);
}

/// The rendering from any depth on reads only widths and first
/// processors.
proof fn lemma_render_pure_from(a: Seq<Seq<ProcessorKind>>, b: Seq<Seq<ProcessorKind>>, d: int)
    requires
        0 <= d,
        pipeline_wf(a),
        a.len() == b.len(),
        forall|i: int| 0 <= i < a.len() ==> (#[trigger] a[i]).len() == b[i].len(),
        forall|i: int| 0 <= i < a.len() ==> (#[trigger] a[i])[0] == b[i][0],
    ensures
        spec_render_from(a, d) == spec_render_from(b, d),
    decreases a.len() - d,
{
    if d < a.len() {
        lemma_render_pure_from(a, b, d + 1);
        let p = a.len() - 1 - d;
        assert(a[p].len() == b[p].len());
        assert(a[p][0] == b[p][0]);
        if a[p][0] == ProcessorKind::MergeProcessor {
            assert(p > 0);
            assert(a[p - 1].len() == b[p - 1].len());
            assert(a[p - 1][0] == b[p - 1][0]);
        }
        assert(spec_entry(a, p) == spec_entry(b, p));
        assert(spec_line(a, d) == spec_line(b, d));
    }
}

} // verus!
