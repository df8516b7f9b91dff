//! The dialect registry: dialects by name, the constraint of each of their
//! operations, and the validation of operations against those constraints.

use vstd::prelude::*;
use crate::constraint::{
    arity_fault, arity_ok, check_types, clone_slots, fault_of, satisfies, slots_view, Fault, Slot,
    SlotView,
};
use crate::error::{Error, Violation};
use crate::ir::{Module, ModuleView, OperationView};
use crate::types::{Type, TypeView};

verus! {

/// The constraint of an operation: what its operands and its results must be.
#[derive(Debug)]
pub struct OperationConstraint {
    pub operands: Vec<Slot>,
    pub results: Vec<Slot>,
}

/// The mathematical value of an [`OperationConstraint`].
pub struct OperationConstraintView {
    pub operands: Seq<SlotView>,
    pub results: Seq<SlotView>,
}

impl View for OperationConstraint {
    type V = OperationConstraintView;

    open spec fn view(&self) -> OperationConstraintView {
        OperationConstraintView {
            operands: slots_view(self.operands@),
            results: slots_view(self.results@),
        }
    }
}

impl OperationConstraint {
    /// The constraint with the given places for operands and for results.
    pub fn new(operands: Vec<Slot>, results: Vec<Slot>) -> (constraint: OperationConstraint)
        ensures
            constraint@ == (OperationConstraintView {
                operands: slots_view(operands@),
                results: slots_view(results@),
            }),
    {
        OperationConstraint { operands, results }
    }
}

impl Clone for OperationConstraint {
    fn clone(&self) -> (copy: Self)
        ensures
            copy@ == self@,
    {
        OperationConstraint {
            operands: clone_slots(&self.operands),
            results: clone_slots(&self.results),
        }
    }
}

/// Whether `at` is the first place in `names` that holds `name`.
pub open spec fn is_first(names: Seq<Seq<char>>, name: Seq<char>, at: int) -> bool {
    &&& 0 <= at < names.len()
    &&& names[at] == name
    &&& forall|j: int| 0 <= j < at ==> names[j] != name
}

/// The first place in `names` that holds `name`, if one does.
pub open spec fn position_of(names: Seq<Seq<char>>, name: Seq<char>) -> Option<int> {
    if exists|at: int| is_first(names, name, at) {
        Some(choose|at: int| is_first(names, name, at))
    } else {
        None
    }
}

/// The first place that holds a name is the one that [`position_of`] gives.
pub proof fn lemma_position_found(names: Seq<Seq<char>>, name: Seq<char>, at: int)
    requires
        is_first(names, name, at),
    ensures
        position_of(names, name) == Some(at),
{
    let chosen = choose|at: int| is_first(names, name, at);
    if chosen < at {
        assert(names[chosen] != name);
    } else if at < chosen {
        assert(names[at] != name);
    }
}

/// Where no place holds a name, [`position_of`] gives none.
pub proof fn lemma_position_missing(names: Seq<Seq<char>>, name: Seq<char>)
    requires
        forall|j: int| 0 <= j < names.len() ==> names[j] != name,
    ensures
        position_of(names, name) is None,
{
}

/// Whether `at` is the place of the first full stop in `name`.
pub open spec fn is_first_dot(name: Seq<char>, at: int) -> bool {
    &&& 0 <= at < name.len()
    &&& name[at] == '.'
    &&& forall|j: int| 0 <= j < at ==> name[j] != '.'
}

/// Whether `name` is qualified: whether it holds a full stop.
pub open spec fn is_qualified(name: Seq<char>) -> bool {
    exists|at: int| is_first_dot(name, at)
}

/// The place of the first full stop in a qualified name.
pub open spec fn first_dot(name: Seq<char>) -> int {
    choose|at: int| is_first_dot(name, at)
}

/// The dialect that a qualified name speaks of: what stands before its first
/// full stop.
pub open spec fn dialect_part(name: Seq<char>) -> Seq<char>
    recommends
        is_qualified(name),
{
    name.subrange(0, first_dot(name))
}

/// The operation that a qualified name speaks of: what stands after its
/// first full stop.
pub open spec fn operation_part(name: Seq<char>) -> Seq<char>
    recommends
        is_qualified(name),
{
    name.subrange(first_dot(name) + 1, name.len() as int)
}

/// The place of the first full stop in `name`.
fn find_dot(name: &str) -> (found: Option<usize>)
    ensures
        match found {
            Some(at) => is_first_dot(name@, at as int) && first_dot(name@) == at,
            None => !is_qualified(name@),
        },
{
    let length = name.unicode_len();
    let mut at: usize = 0;
    while at < length
        invariant
            at <= length,
            length == name@.len(),
            forall|j: int| 0 <= j < at ==> name@[j] != '.',
        decreases length - at,
    {
        if name.get_char(at) == '.' {
            proof {
                let chosen = first_dot(name@);
                assert(is_first_dot(name@, at as int));
                if chosen < at {
                    assert(name@[chosen] != '.');
                } else if at < chosen {
                    assert(name@[at as int] == '.');
                }
            }
            return Some(at);
        }
        at += 1;
    }
    None
}

/// A dialect: a name, and a constraint for each of its operations.
#[derive(Debug)]
pub struct Dialect {
    name: String,
    names: Vec<String>,
    constraints: Vec<OperationConstraint>,
}

/// The mathematical value of a [`Dialect`].
///
/// `names[k]` is the name, within the dialect, of the operation whose
/// constraint is `constraints[k]`.
pub struct DialectView {
    pub name: Seq<char>,
    pub names: Seq<Seq<char>>,
    pub constraints: Seq<OperationConstraintView>,
}

impl DialectView {
    /// Well-formedness: every name has its constraint.
    pub open spec fn wf(self) -> bool {
        self.names.len() == self.constraints.len()
    }

    /// Whether the dialect has an operation of this name.
    pub open spec fn defines(self, operation: Seq<char>) -> bool {
        position_of(self.names, operation) is Some
    }

    /// The constraint of the operation of this name, if the dialect has one.
    pub open spec fn constraint_of(self, operation: Seq<char>) -> Option<OperationConstraintView> {
        match position_of(self.names, operation) {
            Some(at) => Some(self.constraints[at]),
            None => None,
        }
    }
}

impl View for Dialect {
    type V = DialectView;

    closed spec fn view(&self) -> DialectView {
        DialectView {
            name: self.name@,
            names: Seq::new(self.names@.len(), |k: int| self.names@[k]@),
            constraints: Seq::new(self.constraints@.len(), |k: int| self.constraints@[k]@),
        }
    }
}

/// The first place in `names` that holds `name`.
fn find_name(names: &Vec<String>, name: &str) -> (found: Option<usize>)
    ensures
        match found {
            Some(at) => at < names@.len() && position_of(
                Seq::new(names@.len(), |k: int| names@[k]@),
                name@,
            ) == Some(at as int),
            None => position_of(Seq::new(names@.len(), |k: int| names@[k]@), name@) is None,
        },
{
    let wanted = String::from_str(name);
    let ghost views = Seq::new(names@.len(), |k: int| names@[k]@);
    let mut at: usize = 0;
    while at < names.len()
        invariant
            at <= names.len(),
            wanted@ == name@,
            views == Seq::new(names@.len(), |k: int| names@[k]@),
            forall|j: int| 0 <= j < at ==> views[j] != name@,
        decreases names.len() - at,
    {
        if names[at] == wanted {
            proof {
                lemma_position_found(views, name@, at as int);
            }
            return Some(at);
        }
        at += 1;
    }
    proof {
        lemma_position_missing(views, name@);
    }
    None
}

impl Dialect {
    /// A dialect of the given name with no operations.
    pub fn new(name: &str) -> (dialect: Dialect)
        ensures
            dialect@ == (DialectView {
                name: name@,
                names: Seq::empty(),
                constraints: Seq::empty(),
            }),
            dialect@.wf(),
    {
        let dialect = Dialect {
            name: String::from_str(name),
            names: Vec::new(),
            constraints: Vec::new(),
        };
        proof {
            assert(dialect@.names =~= Seq::empty());
            assert(dialect@.constraints =~= Seq::empty());
        }
        dialect
    }

    /// Whether the dialect is well-formed. Every dialect that this library
    /// hands out is.
    pub fn is_well_formed(&self) -> (ok: bool)
        ensures
            ok == self@.wf(),
    {
        self.names.len() == self.constraints.len()
    }

    /// The name of the dialect.
    pub fn name(&self) -> (name: &str)
        ensures
            name@ == self@.name,
    {
        self.name.as_str()
    }

    /// The number of operations of the dialect.
    pub fn operation_count(&self) -> (count: usize)
        requires
            self@.wf(),
        ensures
            count == self@.names.len(),
    {
        self.names.len()
    }

    /// Gives the dialect an operation `operation` with the constraint
    /// `constraint`, unless it has one of this name already. Says whether it
    /// did.
    pub fn define(&mut self, operation: &str, constraint: OperationConstraint) -> (added: bool)
        requires
            old(self)@.wf(),
        ensures
            final(self)@.wf(),
            added == !old(self)@.defines(operation@),
            added ==> final(self)@ == (DialectView {
                name: old(self)@.name,
                names: old(self)@.names.push(operation@),
                constraints: old(self)@.constraints.push(constraint@),
            }),
            added ==> final(self)@.constraint_of(operation@) == Some(constraint@),
            !added ==> final(self)@ == old(self)@,
    {
        if find_name(&self.names, operation).is_some() {
            return false;
        }
        self.names.push(String::from_str(operation));
        self.constraints.push(constraint);
        proof {
            assert(self@.names =~= old(self)@.names.push(operation@));
            assert(self@.constraints =~= old(self)@.constraints.push(constraint@));
            assert forall|j: int| 0 <= j < old(self)@.names.len() implies old(self)@.names[j]
                != operation@ by {
                if old(self)@.names[j] == operation@ {
                    lemma_some_position(old(self)@.names, operation@, j);
                }
            }
            lemma_position_found(self@.names, operation@, old(self)@.names.len() as int);
        }
        true
    }

    /// The constraint of the operation `operation`, if the dialect has one.
    pub fn constraint(&self, operation: &str) -> (found: Option<&OperationConstraint>)
        requires
            self@.wf(),
        ensures
            match found {
                Some(constraint) => self@.constraint_of(operation@) == Some(constraint@),
                None => self@.constraint_of(operation@) is None,
            },
    {
        match find_name(&self.names, operation) {
            Some(at) => Some(&self.constraints[at]),
            None => None,
        }
    }
}

/// The mathematical value of a [`Context`]: the registered dialects, in the
/// order of their registration.
pub struct ContextView {
    pub dialects: Seq<DialectView>,
}

impl ContextView {
    /// The names of the registered dialects, in the order of registration.
    pub open spec fn names(self) -> Seq<Seq<char>> {
        Seq::new(self.dialects.len(), |k: int| self.dialects[k].name)
    }

    /// Well-formedness: every dialect is well-formed and no two dialects
    /// have one name.
    pub open spec fn wf(self) -> bool {
        &&& forall|k: int| 0 <= k < self.dialects.len() ==> (#[trigger] self.dialects[k]).wf()
        &&& forall|j: int, k: int|
            0 <= j < k < self.dialects.len() ==> (#[trigger] self.dialects[j]).name != (
            #[trigger] self.dialects[k]).name
    }

    /// Whether a dialect of this name is registered.
    pub open spec fn has_dialect(self, name: Seq<char>) -> bool {
        position_of(self.names(), name) is Some
    }

    /// The constraint registered under a qualified name: that of the
    /// operation named after the first full stop, in the dialect named
    /// before it.
    pub open spec fn lookup(self, name: Seq<char>) -> Option<OperationConstraintView> {
        if !is_qualified(name) {
            None
        } else {
            match position_of(self.names(), dialect_part(name)) {
                Some(at) => self.dialects[at].constraint_of(operation_part(name)),
                None => None,
            }
        }
    }

    /// The types of the operands of `op`, in order.
    pub open spec fn operand_types(module: ModuleView, op: OperationView) -> Seq<TypeView> {
        Seq::new(op.operands.len(), |k: int| module.type_of(op.operands[k]))
    }

    /// What is wrong with the operation `id` of `module`, if anything is:
    /// that it is not registered; else the fault of its operands; else that
    /// of its results.
    pub open spec fn violation(self, module: ModuleView, id: int) -> Option<Violation> {
        let op = module.operations[id];
        match self.lookup(op.name) {
            None => Some(Violation::Unregistered),
            Some(constraint) => match fault_of(
                constraint.operands,
                Self::operand_types(module, op),
            ) {
                Some(Fault::Count { position }) => Some(Violation::OperandCount { position }),
                Some(Fault::Kind { position }) => Some(Violation::OperandType { position }),
                None => match fault_of(constraint.results, op.results) {
                    Some(Fault::Count { position }) => Some(Violation::ResultCount { position }),
                    Some(Fault::Kind { position }) => Some(Violation::ResultType { position }),
                    None => None,
                },
            },
        }
    }

    /// The violations of the operations numbered below `upto` that are not
    /// erased, in the order of their numbers.
    pub open spec fn violations(self, module: ModuleView, upto: int) -> Seq<Error>
        decreases upto,
    {
        if upto <= 0 {
            Seq::empty()
        } else {
            let earlier = self.violations(module, upto - 1);
            let id = upto - 1;
            if module.operations[id].erased {
                earlier
            } else {
                match self.violation(module, id) {
                    Some(reason) => earlier.push(
                        Error::ConstraintViolation { operation: id as usize, reason },
                    ),
                    None => earlier,
                }
            }
        }
    }
}

/// The dialect registry.
///
/// Dialects are registered once and never changed afterwards, so a context
/// can be read from many places at once.
#[derive(Debug)]
pub struct Context {
    dialects: Vec<Dialect>,
}

impl View for Context {
    type V = ContextView;

    closed spec fn view(&self) -> ContextView {
        ContextView { dialects: Seq::new(self.dialects@.len(), |k: int| self.dialects@[k]@) }
    }
}

impl Context {
    /// A context without dialects.
    pub fn new() -> (context: Context)
        ensures
            context@.dialects == Seq::<DialectView>::empty(),
            context@.wf(),
    {
        let context = Context { dialects: Vec::new() };
        proof {
            assert(context@.dialects =~= Seq::empty());
        }
        context
    }

    /// Whether the context is well-formed. Every context that this library
    /// hands out is.
    pub fn is_well_formed(&self) -> (ok: bool)
        ensures
            ok == self@.wf(),
    {
        let mut k: usize = 0;
        while k < self.dialects.len()
            invariant
                k <= self.dialects.len(),
                forall|j: int| 0 <= j < k ==> (#[trigger] self@.dialects[j]).wf(),
                forall|i: int, j: int|
                    0 <= i < j < k ==> (#[trigger] self@.dialects[i]).name != (
                    #[trigger] self@.dialects[j]).name,
            decreases self.dialects.len() - k,
        {
            assert(self@.dialects[k as int] == self.dialects@[k as int]@);
            if !self.dialects[k].is_well_formed() {
                return false;
            }
            let mut i: usize = 0;
            while i < k
                invariant
                    i <= k < self.dialects.len(),
                    forall|j: int|
                        0 <= j < i ==> (#[trigger] self@.dialects[j]).name != self@.dialects[k
                            as int].name,
                decreases k - i,
            {
                assert(self@.dialects[i as int] == self.dialects@[i as int]@);
                assert(self@.dialects[k as int] == self.dialects@[k as int]@);
                if self.dialects[i].name == self.dialects[k].name {
                    return false;
                }
                i += 1;
            }
            k += 1;
        }
        true
    }

    /// The number of registered dialects.
    pub fn dialect_count(&self) -> (count: usize)
        ensures
            count == self@.dialects.len(),
    {
        self.dialects.len()
    }

    /// The place of the dialect of this name among the registered ones.
    fn find_dialect(&self, name: &str) -> (found: Option<usize>)
        ensures
            match found {
                Some(at) => at < self@.dialects.len() && position_of(self@.names(), name@) == Some(
                    at as int,
                ),
                None => position_of(self@.names(), name@) is None,
            },
    {
        let wanted = String::from_str(name);
        let ghost names = self@.names();
        let mut at: usize = 0;
        while at < self.dialects.len()
            invariant
                at <= self.dialects.len(),
                wanted@ == name@,
                names == self@.names(),
                names.len() == self.dialects@.len(),
                forall|j: int| 0 <= j < at ==> names[j] != name@,
            decreases self.dialects.len() - at,
        {
            if self.dialects[at].name == wanted {
                proof {
                    assert(names[at as int] == self.dialects@[at as int]@.name);
                    lemma_position_found(names, name@, at as int);
                }
                return Some(at);
            }
            assert(names[at as int] == self.dialects@[at as int]@.name);
            at += 1;
        }
        proof {
            lemma_position_missing(names, name@);
        }
        None
    }

    /// Whether a dialect of this name is registered.
    pub fn has_dialect(&self, name: &str) -> (registered: bool)
        ensures
            registered == self@.has_dialect(name@),
    {
        self.find_dialect(name).is_some()
    }

    /// Registers `dialect`, unless a dialect of its name is registered
    /// already: then the context stays as it is.
    pub fn register_dialect(&mut self, dialect: Dialect) -> (outcome: Result<(), Error>)
        requires
            old(self)@.wf(),
            dialect@.wf(),
        ensures
            final(self)@.wf(),
            match outcome {
                Ok(()) => {
                    &&& !old(self)@.has_dialect(dialect@.name)
                    &&& final(self)@.dialects == old(self)@.dialects.push(dialect@)
                },
                Err(error) => {
                    &&& error == Error::DuplicateDialect
                    &&& old(self)@.has_dialect(dialect@.name)
                    &&& final(self)@ == old(self)@
                },
            },
    {
        if self.find_dialect(dialect.name()).is_some() {
            return Err(Error::DuplicateDialect);
        }
        let ghost before = self@;
        self.dialects.push(dialect);
        proof {
            assert(self@.dialects =~= before.dialects.push(dialect@));
            assert forall|j: int, k: int| 0 <= j < k < self@.dialects.len() implies (
            #[trigger] self@.dialects[j]).name != (#[trigger] self@.dialects[k]).name by {
                if k == before.dialects.len() {
                    assert(before.names()[j] == before.dialects[j].name);
                    if before.dialects[j].name == dialect@.name {
                        lemma_some_position(before.names(), dialect@.name, j);
                    }
                }
            }
        }
        Ok(())
    }

    /// The constraint registered under the qualified name `name`.
    ///
    /// `NotFound` is reported where the name holds no full stop, where no
    /// dialect of the name before the first full stop is registered, and
    /// where that dialect has no operation of the name after it.
    pub fn lookup(&self, name: &str) -> (outcome: Result<&OperationConstraint, Error>)
        requires
            self@.wf(),
        ensures
            match outcome {
                Ok(constraint) => self@.lookup(name@) == Some(constraint@),
                Err(error) => error == Error::NotFound && self@.lookup(name@) is None,
            },
    {
        let dot = match find_dot(name) {
            Some(at) => at,
            None => {
                return Err(Error::NotFound);
            },
        };
        let length = name.unicode_len();
        let dialect_name = name.substring_char(0, dot);
        let operation_name = name.substring_char(dot + 1, length);
        let at = match self.find_dialect(dialect_name) {
            Some(at) => at,
            None => {
                return Err(Error::NotFound);
            },
        };
        assert(self@.dialects[at as int] == self.dialects@[at as int]@);
        match self.dialects[at].constraint(operation_name) {
            Some(constraint) => Ok(constraint),
            None => Err(Error::NotFound),
        }
    }

    /// Checks the operation `operation` of `module` against the constraint
    /// registered under its name.
    ///
    /// The number of operands is checked first, then their types, then the
    /// number of results, then their types; the first fault found is
    /// reported. An operation whose name is not registered is reported as unregistered.
    /// `NotFound` is reported where the module has no operation of this number.
    pub fn validate(&self, module: &Module, operation: usize) -> (outcome: Result<(), Error>)
        requires
            self@.wf(),
            module@.wf(),
        ensures
            match outcome {
                Ok(()) => operation < module@.operations.len() && self@.violation(
                    module@,
                    operation as int,
                ) is None,
                Err(error) => if operation < module@.operations.len() {
                    match self@.violation(module@, operation as int) {
                        Some(reason) => error == (Error::ConstraintViolation { operation, reason }),
                        None => false,
                    }
                } else {
                    error == Error::NotFound
                },
            },
    {
        let op = match module.get_operation(operation) {
            Some(op) => op,
            None => {
                return Err(Error::NotFound);
            },
        };
        let constraint = match self.lookup(op.name.as_str()) {
            Ok(constraint) => constraint,
            Err(_) => {
                return Err(
                    Error::ConstraintViolation { operation, reason: Violation::Unregistered },
                );
            },
        };
        let ghost kinds = ContextView::operand_types(module@, op@);
        let mut operand_types: Vec<&Type> = Vec::new();
        let mut k: usize = 0;
        while k < op.operands.len()
            invariant
                k <= op.operands.len(),
                module@.wf(),
                operation < module@.operations.len(),
                op@ == module@.operations[operation as int],
                operand_types@.len() == k,
                forall|j: int|
                    0 <= j < k ==> (#[trigger] operand_types@[j])@ == module@.type_of(
                        op.operands@[j],
                    ),
            decreases op.operands.len() - k,
        {
            proof {
                assert(module@.operation_in_range(operation as int));
                assert(module@.defines(op@.operands[k as int]));
            }
            match module.value_type(op.operands[k]) {
                Some(ty) => {
                    operand_types.push(ty);
                },
                None => {},
            }
            k += 1;
        }
        proof {
            assert(Seq::new(operand_types@.len(), |k: int| operand_types@[k]@) =~= kinds);
        }
        match check_types(&constraint.operands, &operand_types) {
            Some(Fault::Count { position }) => {
                return Err(
                    Error::ConstraintViolation {
                        operation,
                        reason: Violation::OperandCount { position },
                    },
                );
            },
            Some(Fault::Kind { position }) => {
                return Err(
                    Error::ConstraintViolation {
                        operation,
                        reason: Violation::OperandType { position },
                    },
                );
            },
            None => {},
        }
        let mut result_types: Vec<&Type> = Vec::new();
        let mut k: usize = 0;
        while k < op.results.len()
            invariant
                k <= op.results.len(),
                result_types@.len() == k,
                forall|j: int| 0 <= j < k ==> (#[trigger] result_types@[j])@ == op.results@[j]@,
            decreases op.results.len() - k,
        {
            result_types.push(&op.results[k]);
            k += 1;
        }
        proof {
            assert(Seq::new(result_types@.len(), |k: int| result_types@[k]@) =~= op@.results);
        }
        match check_types(&constraint.results, &result_types) {
            Some(Fault::Count { position }) => Err(
                Error::ConstraintViolation { operation, reason: Violation::ResultCount { position } },
            ),
            Some(Fault::Kind { position }) => Err(
                Error::ConstraintViolation { operation, reason: Violation::ResultType { position } },
            ),
            None => Ok(()),
        }
    }

    /// Validates every operation of `module` that is not erased, in the
    /// order of their numbers.
    ///
    /// All violations are collected, unless `fail_fast` asks for the first
    /// alone. A violation never stops the walk otherwise.
    pub fn verify(&self, module: &Module, fail_fast: bool) -> (outcome: Result<(), Vec<Error>>)
        requires
            self@.wf(),
            module@.wf(),
        ensures
            match outcome {
                Ok(()) => self@.violations(module@, module@.operations.len() as int).len() == 0,
                Err(found) => {
                    let all = self@.violations(module@, module@.operations.len() as int);
                    &&& all.len() > 0
                    &&& found@ == if fail_fast {
                        seq![all[0]]
                    } else {
                        all
                    }
                },
            },
    {
        let mut found: Vec<Error> = Vec::new();
        let count = module.operation_count();
        let mut id: usize = 0;
        while id < count
            invariant
                id <= count,
                count == module@.operations.len(),
                self@.wf(),
                module@.wf(),
                found@ == self@.violations(module@, id as int),
                fail_fast ==> found@.len() == 0,
            decreases count - id,
        {
            if !module.operation(id).erased {
                match self.validate(module, id) {
                    Ok(()) => {},
                    Err(error) => {
                        found.push(error);
                        if fail_fast {
                            proof {
                                lemma_violations_grow(
                                    self@,
                                    module@,
                                    id + 1,
                                    module@.operations.len() as int,
                                );
                                assert(found@ =~= seq![found@[0]]);
                            }
                            return Err(found);
                        }
                    },
                }
            }
            id += 1;
        }
        if found.len() == 0 {
            Ok(())
        } else {
            Err(found)
        }
    }
}

/// A name that stands at some place of a list has a first place in it.
pub proof fn lemma_some_position(names: Seq<Seq<char>>, name: Seq<char>, at: int)
    requires
        0 <= at < names.len(),
        names[at] == name,
    ensures
        position_of(names, name) is Some,
    decreases at,
{
    if forall|j: int| 0 <= j < at ==> names[j] != name {
        assert(is_first(names, name, at));
    } else {
        let j = choose|j: int| 0 <= j < at && names[j] == name;
        lemma_some_position(names, name, j);
    }
}

/// The violations found up to one operation are the first of those found up
/// to a later one.
pub proof fn lemma_violations_grow(context: ContextView, module: ModuleView, lower: int, upper: int)
    requires
        0 <= lower <= upper,
    ensures
        context.violations(module, lower).len() <= context.violations(module, upper).len(),
        forall|k: int|
            0 <= k < context.violations(module, lower).len() ==> context.violations(
                module,
                upper,
            )[k] == context.violations(module, lower)[k],
    decreases upper - lower,
{
    if lower < upper {
        lemma_violations_grow(context, module, lower, upper - 1);
    }
}

/// Nothing is reported exactly when every operation that is not erased is
/// valid by itself: checking a module is checking each of its operations.
pub proof fn lemma_verified_means_valid(context: ContextView, module: ModuleView, upto: int)
    requires
        0 <= upto <= module.operations.len(),
    ensures
        context.violations(module, upto).len() == 0 <==> forall|id: int|
            0 <= id < upto && !module.operations[id].erased ==> (#[trigger] context.violation(
                module,
                id,
            )) is None,
    decreases upto,
{
    if upto > 0 {
        lemma_verified_means_valid(context, module, upto - 1);
        let last = upto - 1;
        if context.violations(module, upto).len() == 0 {
            assert forall|id: int|
                0 <= id < upto && !module.operations[id].erased implies (
            #[trigger] context.violation(module, id)) is None by {
                if id == last {
                    assert(context.violation(module, last) is None);
                }
            }
        } else if context.violations(module, last).len() == 0 {
            assert(!module.operations[last].erased);
            assert(context.violation(module, last) is Some);
        }
    }
}

/// A module without operations has no violations, whatever is registered.
pub proof fn lemma_empty_module_verifies(context: ContextView, module: ModuleView)
    requires
        module.operations.len() == 0,
    ensures
        context.violations(module, module.operations.len() as int) == Seq::<Error>::empty(),
{
}

/// An operation whose operands and results satisfy the constraint registered
/// under its name has no violation.
pub proof fn lemma_satisfying_operation_is_valid(
    context: ContextView,
    module: ModuleView,
    id: int,
    constraint: OperationConstraintView,
)
    requires
        0 <= id < module.operations.len(),
        context.lookup(module.operations[id].name) == Some(constraint),
        satisfies(
            constraint.operands,
            ContextView::operand_types(module, module.operations[id]),
        ),
        satisfies(constraint.results, module.operations[id].results),
    ensures
        context.violation(module, id) is None,
{
}

/// An operation with a number of operands that its constraint does not admit
/// is reported with the position of the first operand missing or in excess,
/// whatever the types are.
pub proof fn lemma_operand_count_is_reported(
    context: ContextView,
    module: ModuleView,
    id: int,
    constraint: OperationConstraintView,
)
    requires
        0 <= id < module.operations.len(),
        context.lookup(module.operations[id].name) == Some(constraint),
        !arity_ok(constraint.operands, module.operations[id].operands.len()),
    ensures
        context.violation(module, id) == Some(
            Violation::OperandCount {
                position: arity_fault(
                    constraint.operands,
                    module.operations[id].operands.len(),
                ) as usize,
            },
        ),
{
}

/// An operation whose operands are in order but whose number of results its
/// constraint does not admit is reported with the position of the first
/// result missing or in excess.
pub proof fn lemma_result_count_is_reported(
    context: ContextView,
    module: ModuleView,
    id: int,
    constraint: OperationConstraintView,
)
    requires
        0 <= id < module.operations.len(),
        context.lookup(module.operations[id].name) == Some(constraint),
        satisfies(
            constraint.operands,
            ContextView::operand_types(module, module.operations[id]),
        ),
        !arity_ok(constraint.results, module.operations[id].results.len()),
    ensures
        context.violation(module, id) == Some(
            Violation::ResultCount {
                position: arity_fault(
                    constraint.results,
                    module.operations[id].results.len(),
                ) as usize,
            },
        ),
{
}

/// Under the name of a dialect that is not registered nothing is found,
/// whatever the operation asked for.
pub proof fn lemma_unregistered_dialect_is_not_found(context: ContextView, name: Seq<char>)
    requires
        is_qualified(name),
        !context.has_dialect(dialect_part(name)),
    ensures
        context.lookup(name) is None,
{
}

} // verus!
