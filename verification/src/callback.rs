//! Event callbacks: comparable, cloneable handles around a function from an
//! event payload to a message.
use vstd::prelude::*;
use vstd::std_specs::cmp::PartialEqSpecImpl;
use std::rc::Rc;

verus! {

/// The relation computed by an executable function: `b` is a value that `f`
/// may return when it is called on `a`.
pub open spec fn relation_of<A, B, F: Fn(A) -> B>(f: &F) -> spec_fn(A, B) -> bool {
    |a: A, b: B| call_ensures(*f, (a,), b)
}

/// Relational composition: `first`, then `second`.
pub open spec fn then<A, B, C>(
    first: spec_fn(A, B) -> bool,
    second: spec_fn(B, C) -> bool,
) -> spec_fn(A, C) -> bool {
    |a: A, c: C| exists|b: B| #[trigger] first(a, b) && second(b, c)
}

/// The relation of the identity function.
pub open spec fn identity<A>() -> spec_fn(A, A) -> bool {
    |a: A, b: A| a == b
}

/// Composition of relations is associative.
pub proof fn lemma_then_associative<A, B, C, D>(
    r: spec_fn(A, B) -> bool,
    f: spec_fn(B, C) -> bool,
    g: spec_fn(C, D) -> bool,
)
    ensures
        then(then(r, f), g) == then(r, then(f, g)),
{
    let left = then(then(r, f), g);
    let right = then(r, then(f, g));
    assert forall|a: A, d: D| #[trigger] left(a, d) == right(a, d) by {
        if left(a, d) {
            let c = choose|c: C| #[trigger] then(r, f)(a, c) && g(c, d);
            let b = choose|b: B| #[trigger] r(a, b) && f(b, c);
        }
        if right(a, d) {
            let b = choose|b: B| #[trigger] r(a, b) && then(f, g)(b, d);
            let c = choose|c: C| #[trigger] f(b, c) && g(c, d);
            assert(then(r, f)(a, c) && g(c, d));
        }
    }
}

/// Composition with the identity changes nothing.
pub proof fn lemma_then_identity<A, B>(r: spec_fn(A, B) -> bool)
    ensures
        then(r, identity::<B>()) == r,
{
}

/// Whether `f` accepts every argument.
pub open spec fn total<A, B, F: Fn(A) -> B>(f: &F) -> bool {
    forall|a: A| call_requires(*f, (a,))
}

/// What a callback can do when it is asked for a message.
pub(crate) trait Handler<EVENT, MSG> {
    spec fn relation(&self) -> spec_fn(EVENT, MSG) -> bool;

    fn handle(&self, event: EVENT) -> (msg: MSG)
        ensures
            self.relation()(event, msg),
    ;
}

/// A handler that calls a function.
#[verifier::reject_recursive_types(EVENT)]
#[verifier::reject_recursive_types(MSG)]
#[verifier::reject_recursive_types(F)]
pub(crate) struct Direct<EVENT, MSG, F: Fn(EVENT) -> MSG> {
    func: F,
    marker: core::marker::PhantomData<(EVENT, MSG)>,
}

impl<EVENT, MSG, F: Fn(EVENT) -> MSG> Direct<EVENT, MSG, F> {
    #[verifier::type_invariant]
    spec fn accepts_all(self) -> bool {
        total(&self.func)
    }
}

impl<EVENT, MSG, F: Fn(EVENT) -> MSG> Handler<EVENT, MSG> for Direct<EVENT, MSG, F> {
    closed spec fn relation(&self) -> spec_fn(EVENT, MSG) -> bool {
        relation_of(&self.func)
    }

    fn handle(&self, event: EVENT) -> (msg: MSG) {
        proof {
            use_type_invariant(self);
        }
        (self.func)(event)
    }
}

/// A handler that passes the message of another callback through a function.
#[verifier::reject_recursive_types(EVENT)]
#[verifier::reject_recursive_types(MSG)]
#[verifier::reject_recursive_types(MSG2)]
#[verifier::reject_recursive_types(F)]
pub(crate) struct Remapped<EVENT, MSG, MSG2, F: Fn(MSG) -> MSG2> {
    inner: Callback<EVENT, MSG>,
    func: Rc<F>,
}

impl<EVENT, MSG, MSG2, F: Fn(MSG) -> MSG2> Remapped<EVENT, MSG, MSG2, F> {
    #[verifier::type_invariant]
    spec fn accepts_all(self) -> bool {
        total(&*self.func)
    }
}

impl<EVENT, MSG, MSG2, F: Fn(MSG) -> MSG2> Handler<EVENT, MSG2> for Remapped<EVENT, MSG, MSG2, F> {
    closed spec fn relation(&self) -> spec_fn(EVENT, MSG2) -> bool {
        then(self.inner.handler.relation(), relation_of(&*self.func))
    }

    fn handle(&self, event: EVENT) -> (msg: MSG2) {
        proof {
            use_type_invariant(self);
        }
        let inner = self.inner.handler.handle(event);
        let msg = (self.func)(inner);
        msg
    }
}

/// A handle around a function from an event payload to a message.
///
/// Two callbacks are the same callback when they carry the same key; the key
/// is chosen when the callback is made and survives remapping.
#[verifier::reject_recursive_types(EVENT)]
#[verifier::reject_recursive_types(MSG)]
pub struct Callback<EVENT, MSG> {
    key: u64,
    handler: Rc<Box<dyn Handler<EVENT, MSG>>>,
}

/// The mathematical content of a [`Callback`]: its key, and the relation
/// between an event and the messages that it may produce for it.
#[verifier::reject_recursive_types(EVENT)]
#[verifier::reject_recursive_types(MSG)]
pub struct CallbackView<EVENT, MSG> {
    pub key: u64,
    pub relation: spec_fn(EVENT, MSG) -> bool,
}

impl<EVENT, MSG> CallbackView<EVENT, MSG> {
    /// The callback that passes each message through `f`.
    pub open spec fn map<MSG2>(self, f: spec_fn(MSG, MSG2) -> bool) -> CallbackView<EVENT, MSG2> {
        CallbackView { key: self.key, relation: then(self.relation, f) }
    }
}

impl<EVENT, MSG> View for Callback<EVENT, MSG> {
    type V = CallbackView<EVENT, MSG>;

    closed spec fn view(&self) -> CallbackView<EVENT, MSG> {
        CallbackView { key: self.key, relation: self.handler.relation() }
    }
}

impl<EVENT: 'static, MSG: 'static> Callback<EVENT, MSG> {
    /// Wraps `func` under the comparison key `key`.
    pub fn new<F>(key: u64, func: F) -> (out: Self) where F: Fn(EVENT) -> MSG + 'static
        requires
            total(&func),
        ensures
            out@.key == key,
            out@.relation == relation_of(&func),
    {
        let direct = Direct { func, marker: core::marker::PhantomData };
        let boxed: Box<dyn Handler<EVENT, MSG>> = Box::new(direct);
        let handler = Rc::new(boxed);
        Callback { key, handler }
    }

    /// The comparison key.
    pub fn key(&self) -> (key: u64)
        ensures
            key == self@.key,
    {
        self.key
    }

    /// Turns an event into a message.
    pub fn emit(&self, event: EVENT) -> (msg: MSG)
        ensures
            (self@.relation)(event, msg),
    {
        self.handler.handle(event)
    }

    /// Remaps the messages of the callback through `func`; the key stays.
    pub fn map<F, MSG2: 'static>(self, func: F) -> (out: Callback<EVENT, MSG2>) where
        F: Fn(MSG) -> MSG2 + 'static,

        requires
            total(&func),
        ensures
            out@ == self@.map(relation_of(&func)),
    {
        self.map_shared(Rc::new(func))
    }

    /// Remaps the messages of the callback through a function that other
    /// callbacks use too.
    pub(crate) fn map_shared<F, MSG2: 'static>(self, func: Rc<F>) -> (out: Callback<
        EVENT,
        MSG2,
    >) where F: Fn(MSG) -> MSG2 + 'static
        requires
            total(&*func),
        ensures
            out@ == self@.map(relation_of(&*func)),
    {
        let key = self.key;
        let remapped = Remapped { inner: self, func };
        let boxed: Box<dyn Handler<EVENT, MSG2>> = Box::new(remapped);
        let handler = Rc::new(boxed);
        Callback { key, handler }
    }
}

impl<EVENT, MSG> PartialEq for Callback<EVENT, MSG> {
    fn eq(&self, other: &Callback<EVENT, MSG>) -> (b: bool) {
        self.key == other.key
    }
}

impl<EVENT, MSG> PartialEqSpecImpl for Callback<EVENT, MSG> {
    open spec fn obeys_eq_spec() -> bool {
        true
    }

    open spec fn eq_spec(&self, other: &Callback<EVENT, MSG>) -> bool {
        self@.key == other@.key
    }
}

impl<EVENT, MSG> Clone for Callback<EVENT, MSG> {
    fn clone(&self) -> (out: Self)
        ensures
            out@ == self@,
    {
        Callback { key: self.key, handler: self.handler.clone() }
    }
}

} // verus!
