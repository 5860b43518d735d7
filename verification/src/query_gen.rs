//! The traversal program emitter: for each query the compiler emits a
//! function whose body is a chain of method calls on the traversal
//! builder. A phantom state parameter tracks the frontier kind of the
//! program built so far, so that a chain that violates the frontier-kind
//! state machine cannot be constructed at all.

use vstd::prelude::*;

verus! {

/// Phantom state: no traversal begun.
pub struct NoState;

/// Phantom state: the current frontier holds vertices.
pub struct VertexState;

/// Phantom state: the current frontier holds edges.
pub struct EdgeState;

/// One step of an emitted traversal program.
pub enum TraversalStep {
    V,
    E,
    AddV { label: String },
    AddE { label: String, from_id: String, to_id: String },
    Out { label: String },
    OutE { label: String },
    In { label: String },
    InE { label: String },
}

/// The line of code one step emits.
pub open spec fn step_code_chars(s: TraversalStep) -> Seq<char> {
    match s {
        TraversalStep::V => "    traversal.v(storage);\n"@,
        TraversalStep::E => "    traversal.e(storage);\n"@,
        TraversalStep::AddV { label } => "    traversal.add_v(storage, \""@ + label@
            + "\");\n"@,
        TraversalStep::AddE { label, from_id, to_id } => "    traversal.add_e(storage, \""@
            + label@ + "\", \""@ + from_id@ + "\", \""@ + to_id@ + "\");\n"@,
        TraversalStep::Out { label } => "    traversal.out(storage, \""@ + label@ + "\");\n"@,
        TraversalStep::OutE { label } => "    traversal.out_e(storage, \""@ + label@
            + "\");\n"@,
        TraversalStep::In { label } => "    traversal.in_(storage, \""@ + label@ + "\");\n"@,
        TraversalStep::InE { label } => "    traversal.in_e(storage, \""@ + label@ + "\");\n"@,
    }
}

/// The lines of a run of steps, in order.
pub open spec fn steps_code_chars(steps: Seq<TraversalStep>) -> Seq<char>
    decreases steps.len(),
{
    if steps.len() == 0 {
        Seq::empty()
    } else {
        steps_code_chars(steps.drop_last()) + step_code_chars(steps.last())
    }
}

/// The whole emitted function for a query: header, builder setup, the
/// step lines, and the return of the builder.
pub open spec fn program_code_chars(name: Seq<char>, steps: Seq<TraversalStep>) -> Seq<char> {
    "pub fn "@ + name + "(storage: &HelixGraphStorage) -> TraversalBuilder {\n"@
        + "    let mut traversal = TraversalBuilder::new(vec![]);\n"@
        + steps_code_chars(steps)
        + "    traversal\n"@
        + "}\n"@
}

/// The error type of the text-formatting machinery, carried through by
/// the emitter's signature.
#[verifier::external_type_specification]
#[verifier::external_body]
pub struct ExFmtError(core::fmt::Error);

/// Writes one step's line of code.
pub trait TraversalStepGenerator {
    /// Appends this step's line to the program text.
    fn generate_code(&self, f: &mut String);
}

impl TraversalStepGenerator for TraversalStep {
    /// Appends this step's line to the program text.
    fn generate_code(&self, f: &mut String)
        ensures
            final(f)@ == old(f)@ + step_code_chars(*self),
    {
        match self {
            TraversalStep::V => {
                f.append("    traversal.v(storage);\n");
            },
            TraversalStep::E => {
                f.append("    traversal.e(storage);\n");
            },
            TraversalStep::AddV { label } => {
                f.append("    traversal.add_v(storage, \"");
                f.append(label.as_str());
                f.append("\");\n");
                proof {
                    assert(f@ =~= old(f)@ + step_code_chars(*self));
                }
            },
            TraversalStep::AddE { label, from_id, to_id } => {
                f.append("    traversal.add_e(storage, \"");
                f.append(label.as_str());
                f.append("\", \"");
                f.append(from_id.as_str());
                f.append("\", \"");
                f.append(to_id.as_str());
                f.append("\");\n");
                proof {
                    assert(f@ =~= old(f)@ + step_code_chars(*self));
                }
            },
            TraversalStep::Out { label } => {
                f.append("    traversal.out(storage, \"");
                f.append(label.as_str());
                f.append("\");\n");
                proof {
                    assert(f@ =~= old(f)@ + step_code_chars(*self));
                }
            },
            TraversalStep::OutE { label } => {
                f.append("    traversal.out_e(storage, \"");
                f.append(label.as_str());
                f.append("\");\n");
                proof {
                    assert(f@ =~= old(f)@ + step_code_chars(*self));
                }
            },
            TraversalStep::In { label } => {
                f.append("    traversal.in_(storage, \"");
                f.append(label.as_str());
                f.append("\");\n");
                proof {
                    assert(f@ =~= old(f)@ + step_code_chars(*self));
                }
            },
            TraversalStep::InE { label } => {
                f.append("    traversal.in_e(storage, \"");
                f.append(label.as_str());
                f.append("\");\n");
                proof {
                    assert(f@ =~= old(f)@ + step_code_chars(*self));
                }
            },
        }
    }
}

/// Builds up a traversal program from the steps of a query. The phantom
/// parameter carries the frontier kind the program has reached, so only
/// the legal transitions of the frontier-kind state machine are offered.
pub struct TraversalGenerator<CurrentState> {
    function_identifier: String,
    steps: Vec<TraversalStep>,
    marker: core::marker::PhantomData<CurrentState>,
}

impl<T> TraversalGenerator<T> {
    /// The name of the function the program is emitted under.
    pub closed spec fn spec_name(self) -> Seq<char> {
        self.function_identifier@
    }

    /// The steps recorded so far, in order.
    pub closed spec fn spec_steps(self) -> Seq<TraversalStep> {
        self.steps@
    }

    /// Emits the whole program for this query.
    pub fn generate_code(&self) -> (r: Result<String, core::fmt::Error>)
        ensures
            match r {
                Ok(code) => code@ == program_code_chars(self.spec_name(), self.spec_steps()),
                Err(_) => false,
            },
    {
        let mut code = String::new();
        code.append("pub fn ");
        code.append(self.function_identifier.as_str());
        code.append("(storage: &HelixGraphStorage) -> TraversalBuilder {\n");
        code.append("    let mut traversal = TraversalBuilder::new(vec![]);\n");
        let ghost head = code@;
        let n = self.steps.len();
        let mut i: usize = 0;
        while i < n
            invariant
                n == self.steps@.len(),
                i <= n,
                code@ == head + steps_code_chars(self.steps@.take(i as int)),
            decreases n - i,
        {
            self.steps[i].generate_code(&mut code);
            proof {
                assert(self.steps@.take(i + 1).drop_last() =~= self.steps@.take(i as int));
                assert(self.steps@.take(i + 1).last() == self.steps@[i as int]);
                assert(code@ =~= head + steps_code_chars(self.steps@.take(i + 1)));
            }
            i = i + 1;
        }
        code.append("    traversal\n");
        code.append("}\n");
        proof {
            assert(self.steps@.take(n as int) =~= self.steps@);
            assert(code@ =~= program_code_chars(self.spec_name(), self.spec_steps()));
        }
        Ok(code)
    }
}

impl TraversalGenerator<NoState> {
    /// A fresh program under the given function name, with no steps.
    pub fn new(function_identifier: &str) -> (r: Self)
        ensures
            r.spec_name() == function_identifier@,
            r.spec_steps() == Seq::<TraversalStep>::empty(),
    {
        TraversalGenerator {
            function_identifier: function_identifier.to_owned(),
            steps: Vec::new(),
            marker: core::marker::PhantomData,
        }
    }

    /// Starts the traversal at every node: the frontier becomes vertices.
    pub fn v(self) -> (r: TraversalGenerator<VertexState>)
        ensures
            r.spec_name() == self.spec_name(),
            r.spec_steps() == self.spec_steps().push(TraversalStep::V),
    {
        let mut steps = self.steps;
        steps.push(TraversalStep::V);
        TraversalGenerator {
            function_identifier: self.function_identifier,
            steps,
            marker: core::marker::PhantomData,
        }
    }

    /// Starts the traversal at every edge: the frontier becomes edges.
    pub fn e(self) -> (r: TraversalGenerator<EdgeState>)
        ensures
            r.spec_name() == self.spec_name(),
            r.spec_steps() == self.spec_steps().push(TraversalStep::E),
    {
        let mut steps = self.steps;
        steps.push(TraversalStep::E);
        TraversalGenerator {
            function_identifier: self.function_identifier,
            steps,
            marker: core::marker::PhantomData,
        }
    }
}

impl TraversalGenerator<VertexState> {
    /// Walks outgoing edges to their sinks: vertices to vertices.
    pub fn out(self, label: &str) -> (r: TraversalGenerator<VertexState>)
        ensures
            r.spec_name() == self.spec_name(),
            r.spec_steps().drop_last() == self.spec_steps(),
            r.spec_steps().len() == self.spec_steps().len() + 1,
            (r.spec_steps().last() matches TraversalStep::Out { label: l } && l@ == label@),
    {
        let mut steps = self.steps;
        steps.push(TraversalStep::Out { label: label.to_owned() });
        TraversalGenerator {
            function_identifier: self.function_identifier,
            steps,
            marker: core::marker::PhantomData,
        }
    }

    /// Walks to the outgoing edges themselves: vertices to edges.
    pub fn out_e(self, label: &str) -> (r: TraversalGenerator<EdgeState>)
        ensures
            r.spec_name() == self.spec_name(),
            r.spec_steps().drop_last() == self.spec_steps(),
            r.spec_steps().len() == self.spec_steps().len() + 1,
            (r.spec_steps().last() matches TraversalStep::OutE { label: l } && l@ == label@),
    {
        let mut steps = self.steps;
        steps.push(TraversalStep::OutE { label: label.to_owned() });
        TraversalGenerator {
            function_identifier: self.function_identifier,
            steps,
            marker: core::marker::PhantomData,
        }
    }

    /// Walks incoming edges to their sources: vertices to vertices.
    pub fn in_(self, label: &str) -> (r: TraversalGenerator<VertexState>)
        ensures
            r.spec_name() == self.spec_name(),
            r.spec_steps().drop_last() == self.spec_steps(),
            r.spec_steps().len() == self.spec_steps().len() + 1,
            (r.spec_steps().last() matches TraversalStep::In { label: l } && l@ == label@),
    {
        let mut steps = self.steps;
        steps.push(TraversalStep::In { label: label.to_owned() });
        TraversalGenerator {
            function_identifier: self.function_identifier,
            steps,
            marker: core::marker::PhantomData,
        }
    }

    /// Walks to the incoming edges themselves: vertices to edges.
    pub fn in_e(self, label: &str) -> (r: TraversalGenerator<EdgeState>)
        ensures
            r.spec_name() == self.spec_name(),
            r.spec_steps().drop_last() == self.spec_steps(),
            r.spec_steps().len() == self.spec_steps().len() + 1,
            (r.spec_steps().last() matches TraversalStep::InE { label: l } && l@ == label@),
    {
        let mut steps = self.steps;
        steps.push(TraversalStep::InE { label: label.to_owned() });
        TraversalGenerator {
            function_identifier: self.function_identifier,
            steps,
            marker: core::marker::PhantomData,
        }
    }
}

} // verus!
