//! The scope resolver: it gives every declared name an address, a depth and
//! a slot, and turns every use of a name into the address it denotes.
//!
//! The resolver holds one table of names for each scope that is open, the
//! outermost first. A name's slot is its place in its table; the depth of a
//! use is the number of scopes between the use and the declaration.

use crate::error::ParseErrorKind;
use crate::text::same_text;
use vstd::prelude::*;

verus! {

/// The names declared in one scope, in slot order.
pub type ScopeModel = Seq<Seq<char>>;

/// The first position at or after `from` at which `scope` holds `name`.
pub open spec fn name_position(scope: ScopeModel, name: Seq<char>, from: int) -> Option<int>
    decreases scope.len() - from,
{
    if from < 0 || from >= scope.len() {
        None
    } else if scope[from] == name {
        Some(from)
    } else {
        name_position(scope, name, from + 1)
    }
}

/// Whether `scope` declares `name`.
pub open spec fn declares(scope: ScopeModel, name: Seq<char>) -> bool {
    name_position(scope, name, 0) is Some
}

/// The slot of `name` in `scope`.
pub open spec fn slot_of(scope: ScopeModel, name: Seq<char>) -> nat {
    name_position(scope, name, 0).unwrap() as nat
}

/// The address `(depth, slot)` that `name` denotes where the scopes
/// `scopes` are open, the innermost last: the innermost scope that
/// declares the name decides.
pub open spec fn resolve_in(scopes: Seq<ScopeModel>, name: Seq<char>) -> Option<(nat, nat)>
    decreases scopes.len(),
{
    if scopes.len() == 0 {
        None
    } else if declares(scopes.last(), name) {
        Some((0, slot_of(scopes.last(), name)))
    } else {
        match resolve_in(scopes.drop_last(), name) {
            Some((depth, slot)) => Some((depth + 1, slot)),
            None => None,
        }
    }
}

/// The scopes after `name` was declared in the innermost of them.
pub open spec fn declare_in(scopes: Seq<ScopeModel>, name: Seq<char>) -> Seq<ScopeModel> {
    scopes.update(scopes.len() - 1, scopes.last().push(name))
}

/// The scopes without the innermost; the outermost scope stays.
pub open spec fn leave_in(scopes: Seq<ScopeModel>) -> Seq<ScopeModel> {
    if scopes.len() > 1 {
        scopes.drop_last()
    } else {
        scopes
    }
}

/// The stack of scope tables. One scope is always open: the outermost,
/// which is held apart from the scopes inside it.
pub struct Resolver {
    outer: Vec<Vec<char>>,
    inner: Vec<Vec<Vec<char>>>,
}

/// The names of a scope table.
pub open spec fn names_of(table: Vec<Vec<char>>) -> ScopeModel {
    Seq::new(table@.len(), |i: int| table@[i]@)
}

impl View for Resolver {
    type V = Seq<ScopeModel>;

    closed spec fn view(&self) -> Seq<ScopeModel> {
        Seq::new(
            self.inner@.len() + 1,
            |i: int|
                if i == 0 {
                    names_of(self.outer)
                } else {
                    names_of(self.inner@[i - 1])
                },
        )
    }
}

/// Finds `name` in a scope table.
fn find_name(table: &Vec<Vec<char>>, name: &Vec<char>) -> (r: Option<usize>)
    ensures
        match r {
            Some(i) => i < table@.len() && name_position(names_of(*table), name@, 0) == Some(
                i as int,
            ),
            None => name_position(names_of(*table), name@, 0) is None,
        },
{
    let mut i: usize = 0;
    while i < table.len()
        invariant
            i <= table@.len(),
            name_position(names_of(*table), name@, 0) == name_position(
                names_of(*table),
                name@,
                i as int,
            ),
        decreases table@.len() - i,
    {
        if same_text(&table[i], name) {
            return Some(i);
        }
        i += 1;
    }
    None
}

/// Appends `name` to a scope table, where the table does not hold it, and
/// returns its slot.
fn add_name(table: &mut Vec<Vec<char>>, name: Vec<char>) -> (r: Result<usize, ParseErrorKind>)
    ensures
        r matches Ok(slot) ==> slot == old(table)@.len(),
        declares(names_of(*old(table)), name@) ==> r == Err::<usize, ParseErrorKind>(
            ParseErrorKind::DuplicateDeclaration,
        ) && *final(table) == *old(table),
        !declares(names_of(*old(table)), name@) ==> r == Ok::<usize, ParseErrorKind>(
            old(table)@.len() as usize,
        ) && names_of(*final(table)) == names_of(*old(table)).push(name@),
{
    match find_name(table, &name) {
        Some(_) => Err(ParseErrorKind::DuplicateDeclaration),
        None => {
            let slot = table.len();
            table.push(name);
            assert(names_of(*table) =~= names_of(*old(table)).push(name@));
            Ok(slot)
        },
    }
}

impl Resolver {
    /// One scope is always open.
    pub proof fn lemma_has_scope(&self)
        ensures
            self@.len() >= 1,
    {
    }

    /// A resolver with one scope open, the outermost, which declares nothing.
    pub fn new() -> (r: Resolver)
        ensures
            r@ == seq![Seq::<Seq<char>>::empty()],
    {
        let r = Resolver { outer: Vec::new(), inner: Vec::new() };
        assert(r@ =~~= seq![Seq::<Seq<char>>::empty()]);
        r
    }

    /// Opens a scope inside the innermost one.
    pub fn enter_scope(&mut self)
        ensures
            final(self)@ == old(self)@.push(Seq::empty()),
    {
        self.inner.push(Vec::new());
        assert(self@ =~~= old(self)@.push(Seq::empty()));
    }

    /// Closes the innermost scope. The outermost scope is never closed.
    pub fn leave_scope(&mut self)
        ensures
            final(self)@ == leave_in(old(self)@),
    {
        if self.inner.len() > 0 {
            let _ = self.inner.pop();
            assert(self@ =~~= old(self)@.drop_last());
        }
    }

    /// Declares `name` in the innermost scope and returns its slot, the
    /// number of names that the scope declared before. A name that the scope
    /// declares already is refused; a name that only an outer scope declares
    /// is accepted and shadows the outer one.
    pub fn declare(&mut self, name: Vec<char>) -> (r: Result<usize, ParseErrorKind>)
        ensures
            declares(old(self)@.last(), name@) ==> r == Err::<usize, ParseErrorKind>(
                ParseErrorKind::DuplicateDeclaration,
            ) && final(self)@ == old(self)@,
            !declares(old(self)@.last(), name@) ==> r == Ok::<usize, ParseErrorKind>(
                old(self)@.last().len() as usize,
            ) && final(self)@ == declare_in(old(self)@, name@),
    {
        let ghost name_view = name@;
        if self.inner.len() == 0 {
            let r = add_name(&mut self.outer, name);
            assert(r is Ok ==> self@ =~~= declare_in(old(self)@, name_view));
            assert(r is Err ==> self@ =~~= old(self)@);
            r
        } else {
            let last = self.inner.len() - 1;
            assert(old(self)@.last() == names_of(self.inner@[last as int]));
            let r = add_name(&mut self.inner[last], name);
            assert(r is Ok ==> self@ =~~= declare_in(old(self)@, name_view));
            assert(r is Err ==> self@ =~~= old(self)@);
            r
        }
    }

    /// Declares `name` in the outermost scope, whatever scopes are open
    /// inside it, and returns its slot; a name that the outermost scope
    /// declares already is refused.
    pub fn declare_outer(&mut self, name: Vec<char>) -> (r: Result<usize, ParseErrorKind>)
        ensures
            final(self)@.len() == old(self)@.len(),
            r matches Ok(slot) ==> slot == old(self)@[0].len(),
            declares(old(self)@[0], name@) ==> r == Err::<usize, ParseErrorKind>(
                ParseErrorKind::DuplicateDeclaration,
            ) && final(self)@ == old(self)@,
            !declares(old(self)@[0], name@) ==> r == Ok::<usize, ParseErrorKind>(
                old(self)@[0].len() as usize,
            ) && final(self)@ == old(self)@.update(0, old(self)@[0].push(name@)),
    {
        let ghost name_view = name@;
        assert(old(self)@[0] == names_of(self.outer));
        let r = add_name(&mut self.outer, name);
        assert(r is Ok ==> self@ =~~= old(self)@.update(0, old(self)@[0].push(name_view)));
        assert(r is Err ==> self@ =~~= old(self)@);
        r
    }

    /// The slot of `name` in the outermost scope.
    pub fn find_outer(&self, name: &Vec<char>) -> (r: Option<usize>)
        ensures
            match r {
                Some(slot) => slot < self@[0].len() && name_position(self@[0], name@, 0) == Some(
                    slot as int,
                ),
                None => !declares(self@[0], name@),
            },
    {
        assert(self@[0] == names_of(self.outer));
        find_name(&self.outer, name)
    }

    /// The number of names that the outermost scope declares.
    pub fn outer_len(&self) -> (n: usize)
        ensures
            n == self@[0].len(),
    {
        assert(self@[0] == names_of(self.outer));
        self.outer.len()
    }

    /// A resolver with one scope open, the outermost, which declares the
    /// names given, each at the slot of its place.
    pub fn with_names(names: Vec<Vec<char>>) -> (r: Resolver)
        ensures
            r@ == seq![names_of(names)],
    {
        let r = Resolver { outer: names, inner: Vec::new() };
        assert(r@ =~~= seq![names_of(names)]);
        r
    }

    /// The address that `name` denotes here: the number of scopes to walk
    /// outward from the innermost one, and the slot there.
    pub fn resolve(&self, name: &Vec<char>) -> (r: Result<(usize, usize), ParseErrorKind>)
        ensures
            match resolve_in(self@, name@) {
                Some((depth, slot)) => r == Ok::<(usize, usize), ParseErrorKind>(
                    (depth as usize, slot as usize),
                ) && depth < self@.len() && slot < self@[self@.len() - 1 - depth].len(),
                None => r == Err::<(usize, usize), ParseErrorKind>(
                    ParseErrorKind::UndeclaredVariable,
                ),
            },
    {
        let mut k: usize = self.inner.len();
        assert(self@.take(k + 1) =~= self@);
        while k > 0
            invariant
                k <= self.inner@.len(),
                self@.len() == self.inner@.len() + 1,
                resolve_in(self@.take(k + 1), name@) is None ==> resolve_in(self@, name@)
                    is None,
                resolve_in(self@.take(k + 1), name@) matches Some((d, s)) ==> resolve_in(
                    self@,
                    name@,
                ) == Some((d + (self@.len() - k - 1) as nat, s)),
            decreases k,
        {
            assert(self@.take(k + 1).last() == names_of(self.inner@[k - 1]));
            assert(self@.take(k + 1).drop_last() =~= self@.take(k as int));
            match find_name(&self.inner[k - 1], name) {
                Some(slot) => {
                    return Ok((self.inner.len() - k, slot));
                },
                None => {},
            }
            k -= 1;
        }
        assert(self@.take(1).last() == names_of(self.outer));
        assert(self@.take(1).drop_last().len() == 0);
        assert(resolve_in(self@.take(1).drop_last(), name@) is None);
        assert(self@[0] == names_of(self.outer));
        match find_name(&self.outer, name) {
            Some(slot) => Ok((self.inner.len(), slot)),
            None => Err(ParseErrorKind::UndeclaredVariable),
        }
    }
}

/// Where `scopes[k]` declares `name` and no scope inside it does, `name`
/// resolves to the slot it has in `scopes[k]`, at a depth that is the number
/// of scopes inside `scopes[k]`.
pub proof fn lemma_depth_counts_scopes(scopes: Seq<ScopeModel>, name: Seq<char>, k: int)
    requires
        0 <= k < scopes.len(),
        declares(scopes[k], name),
        forall|j: int| k < j < scopes.len() ==> !declares(#[trigger] scopes[j], name),
    ensures
        resolve_in(scopes, name) == Some(((scopes.len() - 1 - k) as nat, slot_of(scopes[k], name))),
    decreases scopes.len(),
{
    if k < scopes.len() - 1 {
        assert(!declares(scopes[scopes.len() - 1], name));
        let outer = scopes.drop_last();
        assert(outer[k] == scopes[k]);
        assert forall|j: int| k < j < outer.len() implies !declares(#[trigger] outer[j], name) by {
            assert(outer[j] == scopes[j]);
        }
        lemma_depth_counts_scopes(outer, name, k);
    }
}

/// A name that some open scope declares resolves, and to no deeper than any
/// scope that declares it: a declaration in `scopes[m]` hides every
/// declaration of the name in a scope outside `scopes[m]` from the uses
/// inside `scopes[m]`.
pub proof fn lemma_inner_declaration_shadows(scopes: Seq<ScopeModel>, name: Seq<char>, m: int)
    requires
        0 <= m < scopes.len(),
        declares(scopes[m], name),
    ensures
        resolve_in(scopes, name) is Some,
        resolve_in(scopes, name).unwrap().0 <= scopes.len() - 1 - m,
        declares(
            scopes[scopes.len() - 1 - resolve_in(scopes, name).unwrap().0],
            name,
        ),
    decreases scopes.len(),
{
    if !declares(scopes.last(), name) {
        let outer = scopes.drop_last();
        assert(outer[m] == scopes[m]);
        lemma_inner_declaration_shadows(outer, name, m);
        let d = resolve_in(outer, name).unwrap().0;
        assert(outer[outer.len() - 1 - d] == scopes[scopes.len() - 1 - (d + 1)]);
    }
}

/// A name that no open scope declares does not resolve.
pub proof fn lemma_undeclared_does_not_resolve(scopes: Seq<ScopeModel>, name: Seq<char>)
    requires
        forall|j: int| 0 <= j < scopes.len() ==> !declares(#[trigger] scopes[j], name),
    ensures
        resolve_in(scopes, name) is None,
    decreases scopes.len(),
{
    if scopes.len() > 0 {
        let outer = scopes.drop_last();
        assert forall|j: int| 0 <= j < outer.len() implies !declares(#[trigger] outer[j], name) by {
            assert(outer[j] == scopes[j]);
        }
        lemma_undeclared_does_not_resolve(outer, name);
    }
}

/// Declaring a name in a scope opened for it binds every use inside that
/// scope to the new declaration, at depth 0, whatever the name denoted
/// before; once the scope is closed the name denotes what it did before.
/// This holds of the hidden names of the operators as of any other name.
pub proof fn lemma_redeclaration_is_scoped(scopes: Seq<ScopeModel>, name: Seq<char>)
    ensures
        resolve_in(declare_in(scopes.push(Seq::empty()), name), name) == Some((0nat, 0nat)),
        declare_in(scopes.push(Seq::empty()), name).drop_last() == scopes,
{
    let inner = declare_in(scopes.push(Seq::empty()), name);
    assert(inner.last() =~= seq![name]);
    assert(name_position(inner.last(), name, 0) == Some(0int));
    assert(inner.drop_last() =~= scopes);
}

/// A declaration in the innermost scope leaves every other name as it was.
pub proof fn lemma_declaration_keeps_other_names(
    scopes: Seq<ScopeModel>,
    name: Seq<char>,
    other: Seq<char>,
)
    requires
        scopes.len() > 0,
        other != name,
    ensures
        resolve_in(declare_in(scopes, name), other) == resolve_in(scopes, other),
{
    let after = declare_in(scopes, name);
    assert(after.drop_last() =~= scopes.drop_last());
    lemma_push_keeps_positions(scopes.last(), name, other, 0);
}

/// Appending `name` to a scope leaves the position of any other name.
pub proof fn lemma_push_keeps_positions(
    scope: ScopeModel,
    name: Seq<char>,
    other: Seq<char>,
    from: int,
)
    requires
        other != name,
        0 <= from,
    ensures
        name_position(scope.push(name), other, from) == name_position(scope, other, from),
    decreases scope.len() - from,
{
    if from < scope.len() {
        assert(scope.push(name)[from] == scope[from]);
        if scope[from] != other {
            lemma_push_keeps_positions(scope, name, other, from + 1);
        }
    } else if from == scope.len() {
        assert(scope.push(name)[from] == name);
        assert(name_position(scope.push(name), other, from + 1) is None);
    }
}

} // verus!
