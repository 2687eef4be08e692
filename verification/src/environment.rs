//! The environment: a stack of scopes that bind names to values.

use vstd::prelude::*;
use crate::error::{ErrorType, ErrorView};
use crate::hash_table::{get_result, insert_result, lemma_placed_same, lemma_placed_twice, placed};
use crate::number::natural_of;
use crate::value::{copy_value, name_of_type, values_view, BuiltinFunction, Value, ValueView};

verus! {

/// A place to assign to: a variable, and the indices that lead from its value to
/// the element that is meant.
#[derive(Debug)]
pub struct Pointer {
    pub name: String,
    pub indices: Vec<Value>,
}

/// A name with the value bound to it.
#[derive(Debug)]
pub struct Binding {
    pub name: String,
    pub value: Value,
}

/// A scope, as a mathematical value: a map from names to values.
pub type ScopeView = Map<Seq<char>, ValueView>;

/// The map that a list of bindings stands for; of two bindings of one name the
/// later counts.
pub open spec fn scope_view(bindings: Seq<Binding>) -> ScopeView
    decreases bindings.len(),
{
    if bindings.len() == 0 {
        Map::empty()
    } else {
        scope_view(bindings.drop_last()).insert(bindings.last().name@, bindings.last().value@)
    }
}

/// The maps that a stack of scopes stands for.
pub open spec fn scopes_view(scopes: Seq<Vec<Binding>>) -> Seq<ScopeView> {
    Seq::new(scopes.len(), |i: int| scope_view(scopes[i]@))
}

/// The last index below `below` at which `bindings` binds `name`; -1 if there is none.
pub open spec fn last_binding(bindings: Seq<Binding>, name: Seq<char>, below: int) -> int
    decreases below,
{
    if below <= 0 || below > bindings.len() {
        -1
    } else if bindings[below - 1].name@ == name {
        below - 1
    } else {
        last_binding(bindings, name, below - 1)
    }
}

proof fn lemma_last_binding(bindings: Seq<Binding>, name: Seq<char>)
    ensures
        ({
            let at = last_binding(bindings, name, bindings.len() as int);
            &&& -1 <= at < bindings.len()
            &&& at >= 0 ==> bindings[at].name@ == name && scope_view(bindings).contains_key(name) && scope_view(
                bindings,
            )[name] == bindings[at].value@
            &&& at < 0 ==> !scope_view(bindings).contains_key(name)
        }),
    decreases bindings.len(),
{
    if bindings.len() > 0 {
        let front = bindings.drop_last();
        lemma_last_binding(front, name);
        lemma_last_binding_prefix(bindings, name, bindings.len() - 1);
    }
}

proof fn lemma_last_binding_prefix(bindings: Seq<Binding>, name: Seq<char>, below: int)
    requires
        0 <= below < bindings.len(),
    ensures
        last_binding(bindings, name, below) == last_binding(bindings.drop_last(), name, below),
    decreases below,
{
    if below > 0 {
        lemma_last_binding_prefix(bindings, name, below - 1);
    }
}

proof fn lemma_rebind(bindings: Seq<Binding>, at: int, binding: Binding)
    requires
        0 <= at < bindings.len(),
        binding.name@ == bindings[at].name@,
        at == last_binding(bindings, binding.name@, bindings.len() as int),
    ensures
        scope_view(bindings.update(at, binding)) == scope_view(bindings).insert(binding.name@, binding.value@),
    decreases bindings.len(),
{
    let after = bindings.update(at, binding);
    if at == bindings.len() - 1 {
        assert(after.drop_last() =~= bindings.drop_last());
        assert(scope_view(after) =~= scope_view(bindings).insert(binding.name@, binding.value@));
    } else {
        let front = bindings.drop_last();
        assert(after.drop_last() =~= front.update(at, binding));
        lemma_last_binding_prefix(bindings, binding.name@, bindings.len() - 1);
        lemma_rebind(front, at, binding);
        assert(scope_view(after) =~= scope_view(bindings).insert(binding.name@, binding.value@));
    }
}

/// The value bound to `name` in the innermost scope that binds it.
pub open spec fn resolve(scopes: Seq<ScopeView>, name: Seq<char>) -> Option<ValueView>
    decreases scopes.len(),
{
    if scopes.len() == 0 {
        None
    } else if scopes.last().contains_key(name) {
        Some(scopes.last()[name])
    } else {
        resolve(scopes.drop_last(), name)
    }
}

/// The index of the innermost scope that binds `name`; -1 if none does.
pub open spec fn binding_scope(scopes: Seq<ScopeView>, name: Seq<char>) -> int
    decreases scopes.len(),
{
    if scopes.len() == 0 {
        -1
    } else if scopes.last().contains_key(name) {
        scopes.len() - 1
    } else {
        binding_scope(scopes.drop_last(), name)
    }
}

/// The scope that every program starts in: the built-in functions under their names.
pub open spec fn base_scope() -> ScopeView {
    Map::empty().insert("append"@, ValueView::BuiltinFunction(BuiltinFunction::Append)).insert(
        "input"@,
        ValueView::BuiltinFunction(BuiltinFunction::Input),
    ).insert("remove"@, ValueView::BuiltinFunction(BuiltinFunction::Remove)).insert(
        "size"@,
        ValueView::BuiltinFunction(BuiltinFunction::Size),
    ).insert("sort"@, ValueView::BuiltinFunction(BuiltinFunction::Sort)).insert(
        "to_number"@,
        ValueView::BuiltinFunction(BuiltinFunction::ToNumber),
    ).insert("to_string"@, ValueView::BuiltinFunction(BuiltinFunction::ToString))
}

/// The index that a value stands for: it has to be a number that is a natural
/// number; one beyond `usize::MAX` counts as `usize::MAX`.
pub open spec fn index_of_value(index: ValueView, line: usize) -> Result<usize, ErrorView> {
    match index {
        ValueView::Number(x) => match natural_of(x.bits) {
            Some(n) => Ok(if n > usize::MAX { usize::MAX } else { n as usize }),
            None => Err(ErrorView::NonNaturalIndex { got: index, line }),
        },
        _ => Err(ErrorView::NonNumberIndex { got: name_of_type(index), line }),
    }
}

/// Converts a value into an index.
pub fn index_value_to_usize(index: &Value, line: usize) -> (r: Result<usize, ErrorType>)
    ensures
        match index_of_value(index@, line) {
            Ok(n) => r == Ok::<usize, ErrorType>(n),
            Err(e) => r matches Err(found) && found@ == e,
        },
{
    match index {
        Value::Number(x) => match x.to_natural() {
            Some(n) => Ok(if n > usize::MAX as u64 { usize::MAX } else { n as usize }),
            None => Err(ErrorType::NonNaturalIndex { got: copy_value(index), line }),
        },
        _ => Err(ErrorType::NonNumberIndex { got: index.type_to_string(), line }),
    }
}

/// The container after `value` has been written at `index`: into an array at an
/// index within it, into a dictionary under the key, into a string, if `value` is
/// a string of one character, in place of the character at the index.
pub open spec fn written(container: ValueView, index: ValueView, value: ValueView, line: usize) -> Result<
    ValueView,
    ErrorView,
> {
    match container {
        ValueView::Array(items) => match index_of_value(index, line) {
            Err(e) => Err(e),
            Ok(at) => if at < items.len() {
                Ok(ValueView::Array(items.update(at as int, value)))
            } else {
                Err(ErrorView::OutOfBoundsIndex { index: at, line })
            },
        },
        ValueView::Dictionary(buckets) => match insert_result(buckets, index, value, line) {
            Err(e) => Err(e),
            Ok(after) => Ok(ValueView::Dictionary(after)),
        },
        ValueView::String_(text) => match index_of_value(index, line) {
            Err(e) => Err(e),
            Ok(at) => if at >= text.len() {
                Err(ErrorView::OutOfBoundsIndex { index: at, line })
            } else {
                match value {
                    ValueView::String_(c) => if c.len() == 1 {
                        Ok(ValueView::String_(text.update(at as int, c[0])))
                    } else {
                        Err(ErrorView::InsertNonStringIntoString { line })
                    },
                    _ => Err(ErrorView::InsertNonStringIntoString { line }),
                }
            },
        },
        _ => Err(ErrorView::NotIndexable { line }),
    }
}

/// The container after `value` has been written where the indices from `k` on
/// lead: all but the last index are followed into arrays and dictionaries, and the
/// last says where to write.
pub open spec fn updated(container: ValueView, indices: Seq<ValueView>, k: int, value: ValueView, line: usize) -> Result<
    ValueView,
    ErrorView,
>
    decreases indices.len() - k,
{
    if k < 0 || k + 1 >= indices.len() {
        written(container, indices[k], value, line)
    } else {
        match container {
            ValueView::Array(items) => match index_of_value(indices[k], line) {
                Err(e) => Err(e),
                Ok(at) => if at < items.len() {
                    match updated(items[at as int], indices, k + 1, value, line) {
                        Ok(v) => Ok(ValueView::Array(items.update(at as int, v))),
                        Err(e) => Err(e),
                    }
                } else {
                    Err(ErrorView::OutOfBoundsIndex { index: at, line })
                },
            },
            ValueView::Dictionary(buckets) => match get_result(buckets, indices[k], line) {
                Err(e) => Err(e),
                Ok(inner) => match updated(inner, indices, k + 1, value, line) {
                    Ok(v) => Ok(ValueView::Dictionary(placed(buckets, indices[k], v))),
                    Err(e) => Err(e),
                },
            },
            _ => Err(ErrorView::NotIndexable { line }),
        }
    }
}

/// The scopes after an assignment to the variable `name`, or to the element of its
/// value that `indices` lead to.
pub open spec fn update_result(
    scopes: Seq<ScopeView>,
    name: Seq<char>,
    indices: Seq<ValueView>,
    value: ValueView,
    line: usize,
) -> Result<Seq<ScopeView>, ErrorView> {
    let scope = binding_scope(scopes, name);
    if scope < 0 {
        Err(ErrorView::NameError { name, line })
    } else if indices.len() == 0 {
        Ok(scopes.update(scope, scopes[scope].insert(name, value)))
    } else {
        match updated(scopes[scope][name], indices, 0, value, line) {
            Ok(v) => Ok(scopes.update(scope, scopes[scope].insert(name, v))),
            Err(e) => Err(e),
        }
    }
}

/// Writes `value` into the container at `index`.
fn write_in(target: &mut Value, index: &Value, value: &Value, line: usize) -> (r: Result<(), ErrorType>)
    ensures
        match written(old(target)@, index@, value@, line) {
            Ok(v) => r is Ok && final(target)@ == v,
            Err(e) => r matches Err(found) && found@ == e && final(target)@ == old(target)@,
        },
{
    match target {
        Value::Array(items) => {
            match index_value_to_usize(index, line) {
                Err(e) => Err(e),
                Ok(at) => {
                    if at < items.len() {
                        let ghost before = values_view(items@);
                        items.set(at, copy_value(value));
                        assert(values_view(items@) =~= before.update(at as int, value@));
                        Ok(())
                    } else {
                        Err(ErrorType::OutOfBoundsIndex { index: at, line })
                    }
                },
            }
        },
        Value::Dictionary(table) => table.insert(index, value, line),
        Value::String_(text) => {
            match index_value_to_usize(index, line) {
                Err(e) => Err(e),
                Ok(at) => {
                    let length = text.as_str().unicode_len();
                    if at >= length {
                        Err(ErrorType::OutOfBoundsIndex { index: at, line })
                    } else {
                        match value {
                            Value::String_(c) => {
                                if c.as_str().unicode_len() == 1 {
                                    let mut changed = String::from_str(text.as_str().substring_char(0, at));
                                    changed.append(c.as_str());
                                    changed.append(text.as_str().substring_char(at + 1, length));
                                    assert(changed@ =~= text@.update(at as int, c@[0]));
                                    *text = changed;
                                    Ok(())
                                } else {
                                    Err(ErrorType::InsertNonStringIntoString { line })
                                }
                            },
                            _ => Err(ErrorType::InsertNonStringIntoString { line }),
                        }
                    }
                },
            }
        },
        _ => Err(ErrorType::NotIndexable { line }),
    }
}

/// Writes `value` where the indices from `k` on lead inside the container.
fn update_in(target: &mut Value, indices: &Vec<Value>, k: usize, value: &Value, line: usize) -> (r: Result<
    (),
    ErrorType,
>)
    requires
        k < indices@.len(),
    ensures
        match updated(old(target)@, values_view(indices@), k as int, value@, line) {
            Ok(v) => r is Ok && final(target)@ == v,
            Err(e) => r matches Err(found) && found@ == e && final(target)@ == old(target)@,
        },
    decreases indices@.len() - k,
{
    assert(values_view(indices@)[k as int] == indices@[k as int]@);
    if k == indices.len() - 1 {
        return write_in(target, &indices[k], value, line);
    }
    match target {
        Value::Array(items) => {
            match index_value_to_usize(&indices[k], line) {
                Err(e) => Err(e),
                Ok(at) => {
                    if at < items.len() {
                        let ghost before = values_view(items@);
                        let r = update_in(&mut items[at], indices, k + 1, value, line);
                        assert(values_view(items@) =~= before.update(at as int, items@[at as int]@));
                        assert(r is Err ==> values_view(items@) =~= before);
                        r
                    } else {
                        Err(ErrorType::OutOfBoundsIndex { index: at, line })
                    }
                },
            }
        },
        Value::Dictionary(table) => {
            let ghost before = table@;
            match table.replace(&indices[k], Value::Null, line) {
                Err(e) => Err(e),
                Ok(taken) => {
                    let mut inner = taken;
                    let ghost original = inner@;
                    let r = update_in(&mut inner, indices, k + 1, value, line);
                    proof {
                        lemma_placed_twice(before, indices@[k as int]@, ValueView::Null, inner@);
                        lemma_placed_same(before, indices@[k as int]@);
                    }
                    let back = table.replace(&indices[k], inner, line);
                    r
                },
            }
        },
        _ => Err(ErrorType::NotIndexable { line }),
    }
}

/// The last index at which `bindings` binds `name`.
fn find_binding(bindings: &Vec<Binding>, name: &String) -> (r: Option<usize>)
    ensures
        match r {
            Some(at) => at == last_binding(bindings@, name@, bindings@.len() as int),
            None => last_binding(bindings@, name@, bindings@.len() as int) == -1,
        },
{
    let mut k: usize = bindings.len();
    while k > 0
        invariant
            k <= bindings.len(),
            last_binding(bindings@, name@, k as int) == last_binding(bindings@, name@, bindings@.len() as int),
        decreases k,
    {
        if bindings[k - 1].name == *name {
            return Some(k - 1);
        }
        k -= 1;
    }
    None
}

/// Binds `name` to `value` in the innermost of the scopes.
fn declare_in(scopes: &mut Vec<Vec<Binding>>, name: String, value: &Value)
    requires
        old(scopes)@.len() > 0,
    ensures
        final(scopes)@.len() == old(scopes)@.len(),
        scopes_view(final(scopes)@) == scopes_view(old(scopes)@).update(
            old(scopes)@.len() - 1,
            scopes_view(old(scopes)@).last().insert(name@, value@),
        ),
{
    let top = scopes.len() - 1;
    let ghost before = scopes@[top as int]@;
    let binding = Binding { name, value: copy_value(value) };
    match find_binding(&scopes[top], &binding.name) {
        Some(at) => {
            proof {
                lemma_last_binding(before, binding.name@);
                lemma_rebind(before, at as int, binding);
            }
            scopes[top].set(at, binding);
        },
        None => {
            scopes[top].push(binding);
            assert(scopes@[top as int]@.drop_last() =~= before);
        },
    }
    assert(scopes_view(scopes@) =~= scopes_view(old(scopes)@).update(
        top as int,
        scope_view(before).insert(binding.name@, binding.value@),
    ));
}

/// Assigns `value` to the binding at index `at` of the scope at index `scope`, or
/// to the element of its value that the indices of the pointer lead to.
fn update_at(
    scopes: &mut Vec<Vec<Binding>>,
    scope: usize,
    at: usize,
    pointer: &Pointer,
    value: &Value,
    line: usize,
) -> (r: Result<(), ErrorType>)
    requires
        scope == binding_scope(scopes_view(old(scopes)@), pointer.name@),
        scope < old(scopes)@.len(),
        at == last_binding(old(scopes)@[scope as int]@, pointer.name@, old(scopes)@[scope as int]@.len() as int),
    ensures
        final(scopes)@.len() == old(scopes)@.len(),
        match update_result(
            scopes_view(old(scopes)@),
            pointer.name@,
            values_view(pointer.indices@),
            value@,
            line,
        ) {
            Ok(after) => r is Ok && scopes_view(final(scopes)@) == after,
            Err(e) => r matches Err(found) && found@ == e && scopes_view(final(scopes)@) == scopes_view(
                old(scopes)@,
            ),
        },
{
    let ghost before = scopes@[scope as int]@;
    proof {
        lemma_last_binding(before, pointer.name@);
    }
    if pointer.indices.len() == 0 {
        let binding = Binding { name: pointer.name.clone(), value: copy_value(value) };
        proof {
            lemma_rebind(before, at as int, binding);
        }
        scopes[scope].set(at, binding);
        assert(scopes_view(scopes@) =~= scopes_view(old(scopes)@).update(
            scope as int,
            scope_view(before).insert(pointer.name@, value@),
        ));
        Ok(())
    } else {
        let r = update_in(&mut scopes[scope][at].value, &pointer.indices, 0, value, line);
        proof {
            let after = scopes@[scope as int]@;
            assert(after =~= before.update(at as int, after[at as int]));
            lemma_rebind(before, at as int, after[at as int]);
            if r is Err {
                assert(scope_view(after) =~= scope_view(before));
                assert(scopes_view(scopes@) =~= scopes_view(old(scopes)@));
            } else {
                assert(scopes_view(scopes@) =~= scopes_view(old(scopes)@).update(
                    scope as int,
                    scope_view(before).insert(pointer.name@, after[at as int].value@),
                ));
            }
        }
        r
    }
}

/// The stack of scopes. It is never empty: the base scope, which holds the
/// built-in functions, stays.
#[derive(Debug)]
pub struct Environment {
    scopes: Vec<Vec<Binding>>,
}

impl Environment {
    /// What holds of every environment: it has a scope.
    #[verifier::type_invariant]
    closed spec fn sound(self) -> bool {
        self.scopes@.len() > 0
    }

    /// The scopes, outermost first, each a map from names to values.
    pub closed spec fn view(&self) -> Seq<ScopeView> {
        scopes_view(self.scopes@)
    }

    /// Takes the scopes out for work on them, leaving one empty scope.
    fn take(&mut self) -> (work: Vec<Vec<Binding>>)
        ensures
            work@.len() > 0,
            work == old(self).scopes,
            scopes_view(work@) == old(self)@,
    {
        proof {
            use_type_invariant(&*self);
        }
        let mut work: Vec<Vec<Binding>> = Vec::new();
        work.push(Vec::new());
        core::mem::swap(&mut self.scopes, &mut work);
        work
    }

    /// Puts scopes back.
    fn put(&mut self, work: Vec<Vec<Binding>>)
        requires
            work@.len() > 0,
        ensures
            final(self)@ == scopes_view(work@),
    {
        self.scopes = work;
    }

    /// An environment of the base scope alone.
    pub fn new() -> (r: Environment)
        ensures
            r@ == seq![base_scope()],
    {
        let mut base: Vec<Binding> = Vec::new();
        base.push(Binding { name: String::from_str("append"), value: Value::BuiltinFunction(BuiltinFunction::Append) });
        base.push(Binding { name: String::from_str("input"), value: Value::BuiltinFunction(BuiltinFunction::Input) });
        base.push(Binding { name: String::from_str("remove"), value: Value::BuiltinFunction(BuiltinFunction::Remove) });
        base.push(Binding { name: String::from_str("size"), value: Value::BuiltinFunction(BuiltinFunction::Size) });
        base.push(Binding { name: String::from_str("sort"), value: Value::BuiltinFunction(BuiltinFunction::Sort) });
        base.push(
            Binding { name: String::from_str("to_number"), value: Value::BuiltinFunction(BuiltinFunction::ToNumber) },
        );
        base.push(
            Binding { name: String::from_str("to_string"), value: Value::BuiltinFunction(BuiltinFunction::ToString) },
        );
        proof {
            reveal_with_fuel(scope_view, 8);
            assert(scope_view(base@) =~= base_scope());
        }
        let mut scopes: Vec<Vec<Binding>> = Vec::new();
        scopes.push(base);
        assert(scopes_view(scopes@) =~= seq![base_scope()]);
        Environment { scopes }
    }

    /// An environment of one empty scope.
    pub(crate) fn bare() -> (r: Environment)
        ensures
            r@ == seq![Map::<Seq<char>, ValueView>::empty()],
    {
        let mut scopes: Vec<Vec<Binding>> = Vec::new();
        scopes.push(Vec::new());
        assert(scopes_view(scopes@) =~= seq![Map::<Seq<char>, ValueView>::empty()]);
        Environment { scopes }
    }

    /// The number of scopes: at least one.
    pub fn depth(&self) -> (r: usize)
        ensures
            r == self@.len(),
            r > 0,
    {
        proof {
            use_type_invariant(self);
        }
        self.scopes.len()
    }

    /// Enters a new, empty scope.
    pub fn new_scope(&mut self)
        ensures
            final(self)@ == old(self)@.push(Map::empty()),
    {
        let mut work = self.take();
        let ghost before = scopes_view(work@);
        work.push(Vec::new());
        assert(scopes_view(work@) =~= before.push(Map::empty()));
        self.put(work);
    }

    /// Leaves the innermost scope. The base scope cannot be left.
    pub fn exit_scope(&mut self)
        requires
            old(self)@.len() > 1,
        ensures
            final(self)@ == old(self)@.drop_last(),
    {
        let mut work = self.take();
        let ghost before = scopes_view(work@);
        let _ = work.pop();
        assert(scopes_view(work@) =~= before.drop_last());
        self.put(work);
    }

    /// Binds `name` to `value` in the innermost scope, in place of what it may be
    /// bound to there.
    pub fn declare(&mut self, name: String, value: &Value)
        ensures
            final(self)@.len() == old(self)@.len(),
            final(self)@ == old(self)@.update(
                old(self)@.len() - 1,
                old(self)@.last().insert(name@, value@),
            ),
    {
        let mut work = self.take();
        declare_in(&mut work, name, value);
        self.put(work);
    }

    /// The value bound to `name` in the innermost scope that binds it.
    pub fn get(&self, name: String, line: usize) -> (r: Result<Value, ErrorType>)
        ensures
            match resolve(self@, name@) {
                Some(v) => r matches Ok(found) && found@ == v,
                None => r matches Err(e) && e@ == (ErrorView::NameError { name: name@, line }),
            },
    {
        let mut k: usize = self.scopes.len();
        assert(self@.subrange(0, k as int) =~= self@);
        while k > 0
            invariant
                k <= self.scopes.len(),
                resolve(self@.subrange(0, k as int), name@) == resolve(self@, name@),
            decreases k,
        {
            let ghost upto = self@.subrange(0, k as int);
            proof {
                lemma_last_binding(self.scopes@[k - 1]@, name@);
                assert(upto.last() == scope_view(self.scopes@[k - 1]@));
                assert(upto.drop_last() =~= self@.subrange(0, k - 1));
            }
            match find_binding(&self.scopes[k - 1], &name) {
                Some(at) => {
                    return Ok(copy_value(&self.scopes[k - 1][at].value));
                },
                None => {},
            }
            k -= 1;
        }
        Err(ErrorType::NameError { name, line })
    }

    /// The scope that binds `name` innermost, and where in it the binding stands.
    fn locate(&self, name: &String) -> (r: Option<(usize, usize)>)
        ensures
            match r {
                Some(found) => found.0 == binding_scope(self@, name@) && found.0 < self.scopes@.len() && found.1
                    == last_binding(
                    self.scopes@[found.0 as int]@,
                    name@,
                    self.scopes@[found.0 as int]@.len() as int,
                ),
                None => binding_scope(self@, name@) == -1,
            },
    {
        let mut k: usize = self.scopes.len();
        assert(self@.subrange(0, k as int) =~= self@);
        while k > 0
            invariant
                k <= self.scopes.len(),
                binding_scope(self@.subrange(0, k as int), name@) == binding_scope(self@, name@),
            decreases k,
        {
            let ghost upto = self@.subrange(0, k as int);
            proof {
                lemma_last_binding(self.scopes@[k - 1]@, name@);
                assert(upto.last() == scope_view(self.scopes@[k - 1]@));
                assert(upto.drop_last() =~= self@.subrange(0, k - 1));
            }
            match find_binding(&self.scopes[k - 1], name) {
                Some(at) => {
                    return Some((k - 1, at));
                },
                None => {},
            }
            k -= 1;
        }
        None
    }

    /// Assigns `value` to the variable that `pointer` names, in the innermost scope
    /// that binds it, or to the element of its value that the indices lead to.
    /// Nothing changes where the assignment is refused.
    pub fn update(&mut self, pointer: &Pointer, value: &Value, line: usize) -> (r: Result<(), ErrorType>)
        ensures
            match update_result(old(self)@, pointer.name@, values_view(pointer.indices@), value@, line) {
                Ok(scopes) => r is Ok && final(self)@ == scopes,
                Err(e) => r matches Err(found) && found@ == e && final(self)@ == old(self)@,
            },
            final(self)@.len() == old(self)@.len(),
    {
        match self.locate(&pointer.name) {
            None => Err(ErrorType::NameError { name: pointer.name.clone(), line }),
            Some(found) => {
                let mut work = self.take();
                let r = update_at(&mut work, found.0, found.1, pointer, value, line);
                self.put(work);
                r
            },
        }
    }
}

/// A call that changes an environment.
pub ghost enum ScopeCall {
    /// A call of `new_scope`.
    Enter,
    /// A call of `exit_scope`.
    Exit,
    /// A call of `declare`.
    Declare { name: Seq<char>, value: ValueView },
    /// A call of `update`.
    Update { name: Seq<char>, indices: Seq<ValueView>, value: ValueView, line: usize },
}

/// The scopes after one call, done as the method of that name does it. An update
/// that is refused changes nothing.
pub open spec fn after_call(scopes: Seq<ScopeView>, call: ScopeCall) -> Seq<ScopeView> {
    match call {
        ScopeCall::Enter => scopes.push(Map::empty()),
        ScopeCall::Exit => scopes.drop_last(),
        ScopeCall::Declare { name, value } => scopes.update(scopes.len() - 1, scopes.last().insert(name, value)),
        ScopeCall::Update { name, indices, value, line } => match update_result(scopes, name, indices, value, line) {
            Ok(after) => after,
            Err(_) => scopes,
        },
    }
}

/// The scopes after the calls, one after the other.
pub open spec fn after_calls(scopes: Seq<ScopeView>, calls: Seq<ScopeCall>) -> Seq<ScopeView>
    decreases calls.len(),
{
    if calls.len() == 0 {
        scopes
    } else {
        after_call(after_calls(scopes, calls.drop_last()), calls.last())
    }
}

/// How many more scopes the calls enter than they leave.
pub open spec fn nesting(calls: Seq<ScopeCall>) -> int
    decreases calls.len(),
{
    if calls.len() == 0 {
        0
    } else {
        nesting(calls.drop_last()) + match calls.last() {
            ScopeCall::Enter => 1int,
            ScopeCall::Exit => -1int,
            _ => 0int,
        }
    }
}

/// The calls never leave a scope that they have not entered.
pub open spec fn nested(calls: Seq<ScopeCall>) -> bool {
    forall|k: int| 0 <= k <= calls.len() ==> nesting(#[trigger] calls.subrange(0, k)) >= 0
}

/// The calls leave every scope that they enter, and no other.
pub open spec fn balanced(calls: Seq<ScopeCall>) -> bool {
    nested(calls) && nesting(calls) == 0
}

/// Whether the call at `k` binds nothing in the scopes that the calls started
/// from: a declaration stands inside a scope that the calls before it have
/// entered, and an update names a variable that is bound, innermost, in such a
/// scope, or not at all.
pub open spec fn binds_inside(scopes: Seq<ScopeView>, calls: Seq<ScopeCall>, k: int) -> bool {
    match calls[k] {
        ScopeCall::Declare { name, value } => nesting(calls.subrange(0, k)) > 0,
        ScopeCall::Update { name, indices, value, line } => {
            let scope = binding_scope(after_calls(scopes, calls.subrange(0, k)), name);
            scope < 0 || scope >= scopes.len()
        },
        _ => true,
    }
}

/// Whether what the calls declare and update lies in the scopes that they enter.
pub open spec fn local(scopes: Seq<ScopeView>, calls: Seq<ScopeCall>) -> bool {
    forall|k: int| 0 <= k < calls.len() ==> #[trigger] binds_inside(scopes, calls, k)
}

proof fn lemma_binding_scope(scopes: Seq<ScopeView>, name: Seq<char>)
    ensures
        -1 <= binding_scope(scopes, name) < scopes.len(),
    decreases scopes.len(),
{
    if scopes.len() > 0 && !scopes.last().contains_key(name) {
        lemma_binding_scope(scopes.drop_last(), name);
    }
}

proof fn lemma_front_calls(scopes: Seq<ScopeView>, calls: Seq<ScopeCall>, upto: int)
    requires
        nested(calls),
        local(scopes, calls),
        0 <= upto <= calls.len(),
    ensures
        nested(calls.subrange(0, upto)),
        local(scopes, calls.subrange(0, upto)),
{
    let front = calls.subrange(0, upto);
    assert forall|k: int| 0 <= k <= front.len() implies nesting(#[trigger] front.subrange(0, k)) >= 0 by {
        assert(front.subrange(0, k) =~= calls.subrange(0, k));
    }
    assert forall|k: int| 0 <= k < front.len() implies #[trigger] binds_inside(scopes, front, k) by {
        assert(front.subrange(0, k) =~= calls.subrange(0, k));
        assert(binds_inside(scopes, calls, k));
    }
}

proof fn lemma_nested_calls(scopes: Seq<ScopeView>, calls: Seq<ScopeCall>)
    requires
        nested(calls),
        local(scopes, calls),
    ensures
        after_calls(scopes, calls).len() == scopes.len() + nesting(calls),
        after_calls(scopes, calls).subrange(0, scopes.len() as int) == scopes,
    decreases calls.len(),
{
    assert(calls.subrange(0, calls.len() as int) =~= calls);
    if calls.len() == 0 {
        assert(scopes.subrange(0, scopes.len() as int) =~= scopes);
    } else {
        let front = calls.drop_last();
        assert(front =~= calls.subrange(0, calls.len() - 1));
        lemma_front_calls(scopes, calls, calls.len() - 1);
        lemma_nested_calls(scopes, front);
        assert(binds_inside(scopes, calls, calls.len() - 1));
        let before = after_calls(scopes, front);
        let after = after_call(before, calls.last());
        match calls.last() {
            ScopeCall::Update { name, indices, value, line } => {
                lemma_binding_scope(before, name);
            },
            _ => {},
        }
        assert(after.subrange(0, scopes.len() as int) =~= before.subrange(0, scopes.len() as int));
    }
}

/// After calls that are balanced, and that declare and update variables only in
/// the scopes that they enter, every name is bound as it was before them. Each
/// `exit_scope` among them finds a scope to leave.
pub proof fn law_balanced_scopes(scopes: Seq<ScopeView>, calls: Seq<ScopeCall>)
    requires
        balanced(calls),
        local(scopes, calls),
    ensures
        after_calls(scopes, calls) == scopes,
        forall|name: Seq<char>| resolve(after_calls(scopes, calls), name) == resolve(scopes, name),
        forall|k: int| 0 <= k < calls.len() && calls[k] is Exit ==> after_calls(
            scopes,
            #[trigger] calls.subrange(0, k),
        ).len() > scopes.len(),
{
    lemma_nested_calls(scopes, calls);
    assert(after_calls(scopes, calls) =~= after_calls(scopes, calls).subrange(0, scopes.len() as int));
    assert forall|k: int| 0 <= k < calls.len() && calls[k] is Exit implies after_calls(
        scopes,
        #[trigger] calls.subrange(0, k),
    ).len() > scopes.len() by {
        let upto = calls.subrange(0, k);
        let with = calls.subrange(0, k + 1);
        lemma_front_calls(scopes, calls, k);
        lemma_nested_calls(scopes, upto);
        assert(with.drop_last() =~= upto);
        assert(with.last() == calls[k]);
        assert(nesting(with) >= 0);
    }
}

/// After calls of `new_scope` and `exit_scope` alone that are balanced, every
/// name is bound as it was before them.
pub proof fn law_balanced_entries(scopes: Seq<ScopeView>, calls: Seq<ScopeCall>)
    requires
        balanced(calls),
        forall|k: int| 0 <= k < calls.len() ==> #[trigger] calls[k] is Enter || calls[k] is Exit,
    ensures
        after_calls(scopes, calls) == scopes,
        forall|name: Seq<char>| resolve(after_calls(scopes, calls), name) == resolve(scopes, name),
{
    assert forall|k: int| 0 <= k < calls.len() implies #[trigger] binds_inside(scopes, calls, k) by {
        assert(calls[k] is Enter || calls[k] is Exit);
    }
    law_balanced_scopes(scopes, calls);
}

} // verus!
