//! A specialized program and the liveness analysis done while it is built.
use vstd::prelude::*;

use super::value::{accessed_variable, Value};
use crate::shared::NativeVar;

verus! {

/// Names a variable of a specialized program.
#[derive(Clone, Copy, Debug, PartialEq, Eq, Hash, Structural)]
pub struct VariableId(pub usize);

/// Names a jump target of a specialized program.
#[derive(Clone, Copy, Debug, PartialEq, Eq, Hash, Structural)]
pub struct LabelId(pub usize);

/// What an instruction reads and writes.
pub trait Instruction {
    spec fn spec_reads_from(&self) -> Seq<Value>;

    spec fn spec_writes_to(&self) -> Seq<Value>;

    fn reads_from(&self) -> (r: Vec<&Value>)
        ensures
            r@.len() == self.spec_reads_from().len(),
            forall|i: int| 0 <= i < r@.len() ==> *#[trigger] r@[i] == self.spec_reads_from()[i],
    ;

    fn writes_to(&self) -> (r: Vec<&Value>)
        ensures
            r@.len() == self.spec_writes_to().len(),
            forall|i: int| 0 <= i < r@.len() ==> *#[trigger] r@[i] == self.spec_writes_to()[i],
    ;
}

/// An instruction with the variables whose values die after it (kills)
/// and come alive after it (births). Births happen after kills.
pub struct WrappedInstruction<IType> {
    pub instruction: IType,
    pub kills: Vec<VariableId>,
    pub births: Vec<VariableId>,
}

/// The last thing that happened to a variable, and at which instruction.
#[derive(Clone, Copy, Debug, PartialEq, Eq, Structural)]
pub enum VariableStatus {
    Unused,
    Read(usize),
    Written(usize),
}

/// The liveness information of a program: each variable's status, and
/// each instruction's kills and births.
#[verifier::ext_equal]
pub struct Liveness {
    pub statuses: Seq<VariableStatus>,
    pub kills: Seq<Seq<VariableId>>,
    pub births: Seq<Seq<VariableId>>,
}

/// Reading variable `v` at instruction `at`: if its last access was a
/// write, that write gives birth to it; it is now read at `at`.
pub open spec fn read_step(s: Liveness, v: VariableId, at: usize) -> Liveness {
    let births = match s.statuses[v.0 as int] {
        VariableStatus::Written(old) => s.births.update(old as int, s.births[old as int].push(v)),
        _ => s.births,
    };
    Liveness { statuses: s.statuses.update(v.0 as int, VariableStatus::Read(at)), kills: s.kills, births }
}

/// Writing variable `v` at instruction `at`: if its last access was a
/// read, that read kills it; it is now written at `at`.
pub open spec fn write_step(s: Liveness, v: VariableId, at: usize) -> Liveness {
    let kills = match s.statuses[v.0 as int] {
        VariableStatus::Read(old) => s.kills.update(old as int, s.kills[old as int].push(v)),
        _ => s.kills,
    };
    Liveness { statuses: s.statuses.update(v.0 as int, VariableStatus::Written(at)), kills, births: s.births }
}

pub open spec fn fold_reads(s: Liveness, vars: Seq<VariableId>, at: usize) -> Liveness
    decreases vars.len(),
{
    if vars.len() == 0 {
        s
    } else {
        read_step(fold_reads(s, vars.drop_last(), at), vars.last(), at)
    }
}

pub open spec fn fold_writes(s: Liveness, vars: Seq<VariableId>, at: usize) -> Liveness
    decreases vars.len(),
{
    if vars.len() == 0 {
        s
    } else {
        write_step(fold_writes(s, vars.drop_last(), at), vars.last(), at)
    }
}

/// The variables named by a list of operands, in order.
pub open spec fn accessed_variables(values: Seq<Value>) -> Seq<VariableId>
    decreases values.len(),
{
    if values.len() == 0 {
        seq![]
    } else {
        let before = accessed_variables(values.drop_last());
        match accessed_variable(values.last()) {
            Some(v) => before.push(v),
            None => before,
        }
    }
}

/// The variables among the first `n` whose last access was a read at
/// instruction `at`, in order.
pub open spec fn read_last_at(statuses: Seq<VariableStatus>, at: int, n: int) -> Seq<VariableId>
    decreases n,
{
    if n <= 0 {
        seq![]
    } else {
        let before = read_last_at(statuses, at, n - 1);
        if statuses[n - 1] matches VariableStatus::Read(i) && i == at {
            before.push(VariableId((n - 1) as usize))
        } else {
            before
        }
    }
}

/// The statuses once every variable in `outputs` is marked unused again.
pub open spec fn clear_statuses(statuses: Seq<VariableStatus>, outputs: Seq<VariableId>) -> Seq<
    VariableStatus,
>
    decreases outputs.len(),
{
    if outputs.len() == 0 {
        statuses
    } else {
        clear_statuses(statuses, outputs.drop_last()).update(
            outputs.last().0 as int,
            VariableStatus::Unused,
        )
    }
}

/// A program of instructions of type `IType` over native variables.
pub struct GenericProgram<IType: Instruction> {
    variables: Vec<NativeVar>,
    var_statuses: Vec<VariableStatus>,
    instructions: Vec<WrappedInstruction<IType>>,
    inputs: Vec<VariableId>,
    outputs: Vec<VariableId>,
    num_labels: usize,
}

impl<IType: Instruction> GenericProgram<IType> {
    pub closed spec fn spec_variables(&self) -> Seq<NativeVar> {
        self.variables@
    }

    pub closed spec fn spec_inputs(&self) -> Seq<VariableId> {
        self.inputs@
    }

    pub closed spec fn spec_outputs(&self) -> Seq<VariableId> {
        self.outputs@
    }

    pub closed spec fn spec_num_labels(&self) -> nat {
        self.num_labels as nat
    }

    pub closed spec fn spec_instructions(&self) -> Seq<WrappedInstruction<IType>> {
        self.instructions@
    }

    /// The liveness information gathered so far.
    pub closed spec fn liveness(&self) -> Liveness {
        Liveness {
            statuses: self.var_statuses@,
            kills: Seq::new(self.instructions@.len(), |i: int| self.instructions@[i].kills@),
            births: Seq::new(self.instructions@.len(), |i: int| self.instructions@[i].births@),
        }
    }

    /// Every variable has a status, and every status names an instruction
    /// that exists.
    pub closed spec fn wf(&self) -> bool {
        &&& self.var_statuses@.len() == self.variables@.len()
        &&& forall|v: int|
            0 <= v < self.var_statuses@.len() ==> match #[trigger] self.var_statuses@[v] {
                VariableStatus::Unused => true,
                VariableStatus::Read(i) => i < self.instructions@.len(),
                VariableStatus::Written(i) => i < self.instructions@.len(),
            }
    }

    pub fn new() -> (r: Self)
        ensures
            r.wf(),
            r.spec_variables().len() == 0,
            r.spec_instructions().len() == 0,
            r.spec_inputs().len() == 0,
            r.spec_outputs().len() == 0,
            r.spec_num_labels() == 0,
    {
        GenericProgram {
            variables: Vec::new(),
            var_statuses: Vec::new(),
            instructions: Vec::new(),
            inputs: Vec::new(),
            outputs: Vec::new(),
            num_labels: 0,
        }
    }

    /// A label not handed out before.
    pub fn create_label(&mut self) -> (r: LabelId)
        requires
            old(self).spec_num_labels() < usize::MAX,
        ensures
            r.0 == old(self).spec_num_labels(),
            final(self).spec_num_labels() == old(self).spec_num_labels() + 1,
            final(self).spec_variables() == old(self).spec_variables(),
            final(self).spec_instructions() == old(self).spec_instructions(),
            final(self).liveness() == old(self).liveness(),
            final(self).spec_inputs() == old(self).spec_inputs(),
            final(self).spec_outputs() == old(self).spec_outputs(),
            final(self).wf() == old(self).wf(),
    {
        let id = LabelId(self.num_labels);
        self.num_labels = self.num_labels + 1;
        id
    }

    /// Adds a variable, which starts out unused.
    pub fn adopt_variable(&mut self, variable: NativeVar) -> (r: VariableId)
        requires
            old(self).wf(),
        ensures
            final(self).wf(),
            r.0 == old(self).spec_variables().len(),
            final(self).spec_variables() == old(self).spec_variables().push(variable),
            final(self).liveness().statuses == old(self).liveness().statuses.push(
                VariableStatus::Unused,
            ),
            final(self).spec_instructions() == old(self).spec_instructions(),
            final(self).spec_inputs() == old(self).spec_inputs(),
            final(self).spec_outputs() == old(self).spec_outputs(),
            final(self).spec_num_labels() == old(self).spec_num_labels(),
    {
        let id = VariableId(self.variables.len());
        self.variables.push(variable);
        self.var_statuses.push(VariableStatus::Unused);
        id
    }

    pub fn add_input(&mut self, input: VariableId)
        ensures
            final(self).spec_inputs() == old(self).spec_inputs().push(input),
            final(self).spec_outputs() == old(self).spec_outputs(),
            final(self).spec_variables() == old(self).spec_variables(),
            final(self).spec_instructions() == old(self).spec_instructions(),
            final(self).liveness() == old(self).liveness(),
            final(self).spec_num_labels() == old(self).spec_num_labels(),
            final(self).wf() == old(self).wf(),
    {
        self.inputs.push(input);
    }

    pub fn borrow_inputs(&self) -> (r: &Vec<VariableId>)
        ensures
            r@ == self.spec_inputs(),
    {
        &self.inputs
    }

    pub fn add_output(&mut self, output: VariableId)
        ensures
            final(self).spec_outputs() == old(self).spec_outputs().push(output),
            final(self).spec_inputs() == old(self).spec_inputs(),
            final(self).spec_variables() == old(self).spec_variables(),
            final(self).spec_instructions() == old(self).spec_instructions(),
            final(self).liveness() == old(self).liveness(),
            final(self).spec_num_labels() == old(self).spec_num_labels(),
            final(self).wf() == old(self).wf(),
    {
        self.outputs.push(output);
    }

    pub fn borrow_outputs(&self) -> (r: &Vec<VariableId>)
        ensures
            r@ == self.spec_outputs(),
    {
        &self.outputs
    }

    /// The variable `variable` names.
    pub fn borrow_variable(&self, variable: VariableId) -> (r: &NativeVar)
        requires
            variable.0 < self.spec_variables().len(),
        ensures
            *r == self.spec_variables()[variable.0 as int],
    {
        &self.variables[variable.0]
    }

    pub fn borrow_instructions(&self) -> (r: &Vec<WrappedInstruction<IType>>)
        ensures
            r@ == self.spec_instructions(),
    {
        &self.instructions
    }

    /// The variables named by `values`.
    fn collect_variables(values: &Vec<&Value>, Ghost(spec): Ghost<Seq<Value>>) -> (r: Vec<
        VariableId,
    >)
        requires
            values@.len() == spec.len(),
            forall|i: int| 0 <= i < values@.len() ==> *#[trigger] values@[i] == spec[i],
        ensures
            r@ == accessed_variables(spec),
    {
        let mut vars: Vec<VariableId> = Vec::new();
        let mut i: usize = 0;
        while i < values.len()
            invariant
                i <= values@.len(),
                values@.len() == spec.len(),
                forall|j: int| 0 <= j < values@.len() ==> *#[trigger] values@[j] == spec[j],
                vars@ == accessed_variables(spec.take(i as int)),
            decreases values@.len() - i,
        {
            assert(spec.take(i + 1).drop_last() =~= spec.take(i as int));
            if let Value::VariableAccess { variable, .. } = values[i] {
                vars.push(*variable);
            }
            i = i + 1;
        }
        assert(spec.take(values@.len() as int) =~= spec);
        vars
    }

    /// Adds an instruction and updates the liveness information: a variable
    /// read after a write is born at the write, and a variable written
    /// after a read dies at the read.
    pub fn add_instruction(&mut self, instruction: IType)
        requires
            old(self).wf(),
            old(self).spec_instructions().len() < usize::MAX,
            forall|i: int|
                0 <= i < accessed_variables(instruction.spec_reads_from()).len() ==> (
                #[trigger] accessed_variables(instruction.spec_reads_from())[i]).0 < old(self).spec_variables().len(),
            forall|i: int|
                0 <= i < accessed_variables(instruction.spec_writes_to()).len() ==> (
                #[trigger] accessed_variables(instruction.spec_writes_to())[i]).0 < old(self).spec_variables().len(),
        ensures
            final(self).wf(),
            final(self).spec_instructions().len() == old(self).spec_instructions().len() + 1,
            forall|j: int|
                0 <= j < old(self).spec_instructions().len() ==> (
                #[trigger] final(self).spec_instructions()[j]).instruction == old(self).spec_instructions()[j].instruction,
            final(self).spec_instructions().last().instruction == instruction,
            final(self).liveness() == fold_writes(
                fold_reads(
                    Liveness {
                        statuses: old(self).liveness().statuses,
                        kills: old(self).liveness().kills.push(seq![]),
                        births: old(self).liveness().births.push(seq![]),
                    },
                    accessed_variables(instruction.spec_reads_from()),
                    old(self).spec_instructions().len() as usize,
                ),
                accessed_variables(instruction.spec_writes_to()),
                old(self).spec_instructions().len() as usize,
            ),
            final(self).spec_variables() == old(self).spec_variables(),
            final(self).spec_inputs() == old(self).spec_inputs(),
            final(self).spec_outputs() == old(self).spec_outputs(),
            final(self).spec_num_labels() == old(self).spec_num_labels(),
    {
        let reads;
        let writes;
        {
            let read_values = instruction.reads_from();
            reads = Self::collect_variables(&read_values, Ghost(instruction.spec_reads_from()));
            let write_values = instruction.writes_to();
            writes = Self::collect_variables(&write_values, Ghost(instruction.spec_writes_to()));
        }
        let ghost start = Liveness {
            statuses: self.liveness().statuses,
            kills: self.liveness().kills.push(seq![]),
            births: self.liveness().births.push(seq![]),
        };
        let ghost old_instructions = self.instructions@;
        let ghost added = instruction;
        let new_index = self.instructions.len();
        self.instructions.push(
            WrappedInstruction { instruction, kills: Vec::new(), births: Vec::new() },
        );
        assert(self.liveness() =~= start);
        let mut k: usize = 0;
        while k < reads.len()
            invariant
                k <= reads@.len(),
                new_index == old_instructions.len(),
                self.instructions@.len() == new_index + 1,
                self.var_statuses@.len() == self.variables@.len(),
                forall|v: int|
                    0 <= v < self.var_statuses@.len() ==> match #[trigger] self.var_statuses@[v] {
                        VariableStatus::Unused => true,
                        VariableStatus::Read(i) => i < self.instructions@.len(),
                        VariableStatus::Written(i) => i < self.instructions@.len(),
                    },
                forall|i: int| 0 <= i < reads@.len() ==> (#[trigger] reads@[i]).0 < self.variables@.len(),
                forall|i: int| 0 <= i < writes@.len() ==> (#[trigger] writes@[i]).0 < self.variables@.len(),
                self.variables@ == old(self).spec_variables(),
                self.inputs@ == old(self).spec_inputs(),
                self.outputs@ == old(self).spec_outputs(),
                self.num_labels == old(self).spec_num_labels(),
                forall|j: int|
                    0 <= j < new_index ==> (#[trigger] self.instructions@[j]).instruction
                        == old_instructions[j].instruction,
                self.instructions@[new_index as int].instruction == added,
                self.liveness() == fold_reads(start, reads@.take(k as int), new_index),
            decreases reads@.len() - k,
        {
            let var = reads[k];
            assert(reads@.take(k + 1).drop_last() =~= reads@.take(k as int));
            if let VariableStatus::Written(old_index) = self.var_statuses[var.0] {
                self.instructions[old_index].births.push(var);
            }
            self.var_statuses.set(var.0, VariableStatus::Read(new_index));
            k = k + 1;
            assert(self.liveness() =~= fold_reads(start, reads@.take(k as int), new_index));
        }
        assert(reads@.take(reads@.len() as int) =~= reads@);
        let ghost middle = self.liveness();
        let mut k: usize = 0;
        while k < writes.len()
            invariant
                k <= writes@.len(),
                new_index == old_instructions.len(),
                self.instructions@.len() == new_index + 1,
                self.var_statuses@.len() == self.variables@.len(),
                forall|v: int|
                    0 <= v < self.var_statuses@.len() ==> match #[trigger] self.var_statuses@[v] {
                        VariableStatus::Unused => true,
                        VariableStatus::Read(i) => i < self.instructions@.len(),
                        VariableStatus::Written(i) => i < self.instructions@.len(),
                    },
                forall|i: int| 0 <= i < writes@.len() ==> (#[trigger] writes@[i]).0 < self.variables@.len(),
                self.variables@ == old(self).spec_variables(),
                self.inputs@ == old(self).spec_inputs(),
                self.outputs@ == old(self).spec_outputs(),
                self.num_labels == old(self).spec_num_labels(),
                forall|j: int|
                    0 <= j < new_index ==> (#[trigger] self.instructions@[j]).instruction
                        == old_instructions[j].instruction,
                self.instructions@[new_index as int].instruction == added,
                self.liveness() == fold_writes(middle, writes@.take(k as int), new_index),
            decreases writes@.len() - k,
        {
            let var = writes[k];
            assert(writes@.take(k + 1).drop_last() =~= writes@.take(k as int));
            if let VariableStatus::Read(old_index) = self.var_statuses[var.0] {
                self.instructions[old_index].kills.push(var);
            }
            self.var_statuses.set(var.0, VariableStatus::Written(new_index));
            k = k + 1;
            assert(self.liveness() =~= fold_writes(middle, writes@.take(k as int), new_index));
        }
        assert(writes@.take(writes@.len() as int) =~= writes@);
    }

    /// Finishes the liveness analysis once every instruction is added:
    /// outputs stay alive to the end, and every other variable whose last
    /// access was a read dies at that read.
    pub fn complete_liveness_analysis(&mut self)
        requires
            old(self).wf(),
            forall|i: int|
                0 <= i < old(self).spec_outputs().len() ==> (#[trigger] old(self).spec_outputs()[i]).0 < old(self).spec_variables().len(),
        ensures
            final(self).wf(),
            final(self).liveness().statuses == clear_statuses(
                old(self).liveness().statuses,
                old(self).spec_outputs(),
            ),
            final(self).liveness().births == old(self).liveness().births,
            final(self).liveness().kills.len() == old(self).liveness().kills.len(),
            forall|j: int|
                0 <= j < old(self).liveness().kills.len() ==> #[trigger] final(self).liveness().kills[j] == old(self).liveness().kills[j] + read_last_at(
                    final(self).liveness().statuses,
                    j,
                    final(self).liveness().statuses.len() as int,
                ),
            final(self).spec_instructions().len() == old(self).spec_instructions().len(),
            forall|j: int|
                0 <= j < old(self).spec_instructions().len() ==> (
                #[trigger] final(self).spec_instructions()[j]).instruction == old(self).spec_instructions()[j].instruction,
            final(self).spec_variables() == old(self).spec_variables(),
            final(self).spec_inputs() == old(self).spec_inputs(),
            final(self).spec_outputs() == old(self).spec_outputs(),
            final(self).spec_num_labels() == old(self).spec_num_labels(),
    {
        let ghost start = self.liveness();
        assert forall|i: int| 0 <= i < self.outputs@.len() implies (#[trigger] self.outputs@[i]).0
            < self.variables@.len() by {
            assert(old(self).spec_outputs()[i] == self.outputs@[i]);
        }
        let mut k: usize = 0;
        while k < self.outputs.len()
            invariant
                k <= self.outputs@.len(),
                self.var_statuses@.len() == self.variables@.len(),
                forall|v: int|
                    0 <= v < self.var_statuses@.len() ==> match #[trigger] self.var_statuses@[v] {
                        VariableStatus::Unused => true,
                        VariableStatus::Read(i) => i < self.instructions@.len(),
                        VariableStatus::Written(i) => i < self.instructions@.len(),
                    },
                forall|i: int|
                    0 <= i < self.outputs@.len() ==> (#[trigger] self.outputs@[i]).0
                        < self.variables@.len(),
                self.variables@ == old(self).spec_variables(),
                self.inputs@ == old(self).spec_inputs(),
                self.outputs@ == old(self).spec_outputs(),
                self.num_labels == old(self).spec_num_labels(),
                self.instructions@ == old(self).spec_instructions(),
                self.var_statuses@ == clear_statuses(start.statuses, self.outputs@.take(k as int)),
            decreases self.outputs@.len() - k,
        {
            let output = self.outputs[k];
            assert(self.outputs@.take(k + 1).drop_last() =~= self.outputs@.take(k as int));
            self.var_statuses.set(output.0, VariableStatus::Unused);
            k = k + 1;
        }
        assert(self.outputs@.take(self.outputs@.len() as int) =~= self.outputs@);
        let ghost cleared = self.var_statuses@;
        let ghost before = self.instructions@;
        let mut index: usize = 0;
        while index < self.var_statuses.len()
            invariant
                index <= self.var_statuses@.len(),
                self.var_statuses@ == cleared,
                cleared.len() == self.variables@.len(),
                forall|v: int|
                    0 <= v < cleared.len() ==> match #[trigger] cleared[v] {
                        VariableStatus::Unused => true,
                        VariableStatus::Read(i) => i < before.len(),
                        VariableStatus::Written(i) => i < before.len(),
                    },
                self.variables@ == old(self).spec_variables(),
                self.inputs@ == old(self).spec_inputs(),
                self.outputs@ == old(self).spec_outputs(),
                self.num_labels == old(self).spec_num_labels(),
                self.instructions@.len() == before.len(),
                before == old(self).spec_instructions(),
                forall|j: int|
                    0 <= j < before.len() ==> (#[trigger] self.instructions@[j]).instruction
                        == before[j].instruction && self.instructions@[j].births@
                        == before[j].births@ && self.instructions@[j].kills@ == before[j].kills@
                        + read_last_at(cleared, j, index as int),
            decreases self.var_statuses@.len() - index,
        {
            let ghost prev = self.instructions@;
            let status = self.var_statuses[index];
            if let VariableStatus::Read(old_index) = status {
                self.instructions[old_index].kills.push(VariableId(index));
            }
            index = index + 1;
            assert forall|j: int| 0 <= j < before.len() implies (
            #[trigger] self.instructions@[j]).kills@ == before[j].kills@ + read_last_at(
                cleared,
                j,
                index as int,
            ) by {
                let earlier = read_last_at(cleared, j, index - 1);
                if status matches VariableStatus::Read(i) && i == j {
                    assert(self.instructions@[j].kills@ == prev[j].kills@.push(
                        VariableId((index - 1) as usize),
                    ));
                    assert(before[j].kills@ + earlier.push(VariableId((index - 1) as usize)) =~= (
                    before[j].kills@ + earlier).push(VariableId((index - 1) as usize)));
                } else {
                    assert(self.instructions@[j].kills@ == prev[j].kills@);
                }
            }
        }
        assert(self.liveness().births =~= start.births);
    }
}

/// Once every output's status is cleared, no instruction kills an output:
/// outputs stay alive to the end of the program.
pub proof fn lemma_outputs_never_killed(
    statuses: Seq<VariableStatus>,
    outputs: Seq<VariableId>,
    at: int,
    o: int,
)
    requires
        0 <= o < outputs.len(),
        statuses.len() <= usize::MAX,
        forall|i: int| 0 <= i < outputs.len() ==> (#[trigger] outputs[i]).0 < statuses.len(),
    ensures
        !read_last_at(clear_statuses(statuses, outputs), at, statuses.len() as int).contains(
            outputs[o],
        ),
{
    let cleared = clear_statuses(statuses, outputs);
    lemma_cleared_output_unused(statuses, outputs, o);
    lemma_read_last_at_members(cleared, at, statuses.len() as int, outputs[o].0 as int);
}

proof fn lemma_cleared_output_unused(statuses: Seq<VariableStatus>, outputs: Seq<VariableId>, o: int)
    requires
        0 <= o < outputs.len(),
        forall|i: int| 0 <= i < outputs.len() ==> (#[trigger] outputs[i]).0 < statuses.len(),
    ensures
        clear_statuses(statuses, outputs).len() == statuses.len(),
        clear_statuses(statuses, outputs)[outputs[o].0 as int] == VariableStatus::Unused,
    decreases outputs.len(),
{
    let rest = outputs.drop_last();
    assert forall|i: int| 0 <= i < rest.len() implies (#[trigger] rest[i]).0 < statuses.len() by {
        assert(rest[i] == outputs[i]);
    }
    lemma_clear_len(statuses, rest);
    if o < outputs.len() - 1 {
        assert(rest[o] == outputs[o]);
        lemma_cleared_output_unused(statuses, rest, o);
    }
    lemma_clear_len(statuses, outputs);
}

proof fn lemma_clear_len(statuses: Seq<VariableStatus>, outputs: Seq<VariableId>)
    requires
        forall|i: int| 0 <= i < outputs.len() ==> (#[trigger] outputs[i]).0 < statuses.len(),
    ensures
        clear_statuses(statuses, outputs).len() == statuses.len(),
    decreases outputs.len(),
{
    if outputs.len() > 0 {
        let rest = outputs.drop_last();
        assert forall|i: int| 0 <= i < rest.len() implies (#[trigger] rest[i]).0 < statuses.len() by {
            assert(rest[i] == outputs[i]);
        }
        lemma_clear_len(statuses, rest);
    }
}

/// A variable is killed at instruction `at` only if its last access was a
/// read there.
proof fn lemma_read_last_at_members(statuses: Seq<VariableStatus>, at: int, n: int, v: int)
    requires
        0 <= v < n <= statuses.len(),
        statuses.len() <= usize::MAX,
        statuses[v] == VariableStatus::Unused,
    ensures
        !read_last_at(statuses, at, n).contains(VariableId(v as usize)),
    decreases n,
{
    if n > 0 {
        if v < n - 1 {
            lemma_read_last_at_members(statuses, at, n - 1, v);
            lemma_read_last_at_below(statuses, at, n - 1);
        } else {
            lemma_read_last_at_below(statuses, at, n - 1);
        }
        let before = read_last_at(statuses, at, n - 1);
        if statuses[n - 1] matches VariableStatus::Read(i) && i == at {
            assert(read_last_at(statuses, at, n) == before.push(VariableId((n - 1) as usize)));
            if read_last_at(statuses, at, n).contains(VariableId(v as usize)) {
                let k = choose|k: int|
                    0 <= k < read_last_at(statuses, at, n).len() && read_last_at(statuses, at, n)[k]
                        == VariableId(v as usize);
                if k < before.len() {
                    assert(before[k] == VariableId(v as usize));
                }
            }
        }
    }
}

/// The variables killed among the first `n` all have numbers below `n`.
proof fn lemma_read_last_at_below(statuses: Seq<VariableStatus>, at: int, n: int)
    requires
        0 <= n <= statuses.len(),
        statuses.len() <= usize::MAX,
    ensures
        forall|k: int|
            0 <= k < read_last_at(statuses, at, n).len() ==> (#[trigger] read_last_at(
                statuses,
                at,
                n,
            )[k]).0 < n,
    decreases n,
{
    if n > 0 {
        lemma_read_last_at_below(statuses, at, n - 1);
        let before = read_last_at(statuses, at, n - 1);
        if statuses[n - 1] matches VariableStatus::Read(i) && i == at {
            assert(read_last_at(statuses, at, n) == before.push(VariableId((n - 1) as usize)));
            assert forall|k: int| 0 <= k < read_last_at(statuses, at, n).len() implies (
            #[trigger] read_last_at(statuses, at, n)[k]).0 < n by {
                if k < before.len() {
                    assert(read_last_at(statuses, at, n)[k] == before[k]);
                }
            }
        }
    }
}

} // verus!
