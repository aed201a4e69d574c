//! Looking up the attributes of an element: by name, by kind, and of
//! several attributes of one name the first.
use vstd::prelude::*;
use crate::text::str_eq;
use crate::vnode::AttribValue;
use crate::vnode::Attribute;
use crate::vnode::AttributeView;
use crate::vnode::Element;
use crate::vnode::Tag;
use crate::vnode::attrs_view;

verus! {

/// The least index of `s` at which `pred` holds, if there is one.
pub open spec fn first_where<A>(s: Seq<A>, pred: spec_fn(A) -> bool) -> Option<int>
    decreases s.len(),
{
    if s.len() == 0 {
        None
    } else if pred(s[0]) {
        Some(0)
    } else {
        match first_where(s.drop_first(), pred) {
            Some(i) => Some(i + 1),
            None => None,
        }
    }
}

/// `first_where` finds an index at which the predicate holds and before
/// which it does not, or nothing where it holds nowhere.
pub proof fn lemma_first_where<A>(s: Seq<A>, pred: spec_fn(A) -> bool)
    ensures
        match first_where(s, pred) {
            Some(i) => 0 <= i < s.len() && pred(s[i]) && forall|j: int|
                0 <= j < i ==> !pred(#[trigger] s[j]),
            None => forall|j: int| 0 <= j < s.len() ==> !pred(#[trigger] s[j]),
        },
    decreases s.len(),
{
    if s.len() > 0 && !pred(s[0]) {
        let rest = s.drop_first();
        lemma_first_where(rest, pred);
        match first_where(rest, pred) {
            Some(i) => {
                assert forall|j: int| 0 <= j < i + 1 implies !pred(#[trigger] s[j]) by {
                    if j > 0 {
                        assert(s[j] == rest[j - 1]);
                    }
                }
            },
            None => {
                assert forall|j: int| 0 <= j < s.len() implies !pred(#[trigger] s[j]) by {
                    if j > 0 {
                        assert(s[j] == rest[j - 1]);
                    }
                }
            },
        }
    }
}

/// The least index at which the predicate holds is what `first_where` finds.
pub proof fn lemma_first_where_is<A>(s: Seq<A>, pred: spec_fn(A) -> bool, i: int)
    requires
        0 <= i < s.len(),
        pred(s[i]),
        forall|j: int| 0 <= j < i ==> !pred(#[trigger] s[j]),
    ensures
        first_where(s, pred) == Some(i),
{
    lemma_first_where(s, pred);
}

/// Where the predicate holds nowhere, `first_where` finds nothing.
pub proof fn lemma_first_where_none<A>(s: Seq<A>, pred: spec_fn(A) -> bool)
    requires
        forall|j: int| 0 <= j < s.len() ==> !pred(#[trigger] s[j]),
    ensures
        first_where(s, pred) is None,
{
    lemma_first_where(s, pred);
}

/// Two sequences that agree on two predicates, position by position, have
/// their first match at the same index.
pub proof fn lemma_first_where_agree<A, B>(
    s: Seq<A>,
    p: spec_fn(A) -> bool,
    t: Seq<B>,
    q: spec_fn(B) -> bool,
)
    requires
        s.len() == t.len(),
        forall|i: int| 0 <= i < s.len() ==> p(#[trigger] s[i]) == q(t[i]),
    ensures
        first_where(s, p) == first_where(t, q),
{
    lemma_first_where(s, p);
    lemma_first_where(t, q);
    match first_where(s, p) {
        Some(i) => {
            assert forall|j: int| 0 <= j < i implies !q(#[trigger] t[j]) by {
                assert(p(s[j]) == q(t[j]));
            }
            lemma_first_where_is(t, q, i);
        },
        None => {
            assert forall|j: int| 0 <= j < t.len() implies !q(#[trigger] t[j]) by {
                assert(p(s[j]) == q(t[j]));
            }
            lemma_first_where_none(t, q);
        },
    }
}

/// The attributes of the given name among the plain attributes, if `plain`
/// holds, and the event attributes, if `events` holds.
pub open spec fn kinds_named<EVENT, MSG>(key: Seq<char>, plain: bool, events: bool) -> spec_fn(
    AttributeView<EVENT, MSG>,
) -> bool {
    |a: AttributeView<EVENT, MSG>|
        ((a.is_event() && events) || (!a.is_event() && plain)) && a.name == key
}

/// The attributes of the given name.
pub open spec fn named<EVENT, MSG>(key: Seq<char>) -> spec_fn(AttributeView<EVENT, MSG>) -> bool {
    kinds_named(key, true, true)
}

/// The plain attributes of the given name.
pub open spec fn plain_named<EVENT, MSG>(key: Seq<char>) -> spec_fn(
    AttributeView<EVENT, MSG>,
) -> bool {
    kinds_named(key, true, false)
}

/// The event attributes of the given name.
pub open spec fn event_named<EVENT, MSG>(key: Seq<char>) -> spec_fn(
    AttributeView<EVENT, MSG>,
) -> bool {
    kinds_named(key, false, true)
}

/// The values behind a sequence of references.
pub open spec fn deref_all<A>(refs: Seq<&A>) -> Seq<A> {
    Seq::new(refs.len(), |i: int| *refs[i])
}

/// The attributes of a sequence that are event attributes, if `events`
/// holds, or plain attributes, if it does not; in order.
pub open spec fn of_kind<EVENT, MSG>(attrs: Seq<Attribute<EVENT, MSG>>, events: bool) -> Seq<
    Attribute<EVENT, MSG>,
> {
    attrs.filter(|a: Attribute<EVENT, MSG>| a@.is_event() == events)
}

/// The index of the first attribute of the given name among the plain
/// attributes, if `plain` holds, and the event attributes, if `events`
/// holds.
pub fn position<EVENT: 'static, MSG: 'static>(
    attrs: &Vec<Attribute<EVENT, MSG>>,
    key: &str,
    plain: bool,
    events: bool,
) -> (found: Option<usize>)
    ensures
        match found {
            Some(i) => first_where(attrs_view(attrs@), kinds_named(key@, plain, events)) == Some(
                i as int,
            ) && i < attrs@.len(),
            None => first_where(attrs_view(attrs@), kinds_named(key@, plain, events)) is None,
        },
{
    let ghost pred = kinds_named::<EVENT, MSG>(key@, plain, events);
    let ghost views = attrs_view(attrs@);
    let mut i: usize = 0;
    while i < attrs.len()
        invariant
            i <= attrs.len(),
            views == attrs_view(attrs@),
            pred == kinds_named::<EVENT, MSG>(key@, plain, events),
            forall|j: int| 0 <= j < i ==> !pred(#[trigger] views[j]),
        decreases attrs.len() - i,
    {
        let attr = &attrs[i];
        let event = attr.value.is_event();
        if ((event && events) || (!event && plain)) && str_eq(attr.name, key) {
            proof {
                lemma_first_where_is(views, pred, i as int);
            }
            return Some(i);
        }
        i = i + 1;
    }
    proof {
        lemma_first_where_none(views, pred);
    }
    None
}

impl<T: Tag, EVENT: 'static, MSG: 'static> Element<T, EVENT, MSG> {
    /// The first attribute, plain or event, of the given name.
    pub fn get_attr(&self, key: &str) -> (found: Option<&Attribute<EVENT, MSG>>)
        ensures
            found == match first_where(self@.attrs, named(key@)) {
                Some(i) => Some(&self.attrs@[i]),
                None => None,
            },
    {
        self.find(key, true, true)
    }

    /// The first event attribute of the given name.
    pub fn get_event(&self, name: &str) -> (found: Option<&Attribute<EVENT, MSG>>)
        ensures
            found == match first_where(self@.attrs, event_named(name@)) {
                Some(i) => Some(&self.attrs@[i]),
                None => None,
            },
    {
        self.find(name, false, true)
    }

    /// The value of the first plain attribute of the given name.
    pub fn get_attrib_value(&self, key: &str) -> (found: Option<&AttribValue<EVENT, MSG>>)
        ensures
            found == match first_where(self@.attrs, plain_named(key@)) {
                Some(i) => Some(&self.attrs@[i].value),
                None => None,
            },
    {
        match self.find(key, true, false) {
            Some(attr) => Some(&attr.value),
            None => None,
        }
    }

    /// The first attribute of the given name among the plain attributes, if
    /// `plain` holds, and the event attributes, if `events` holds.
    fn find(&self, key: &str, plain: bool, events: bool) -> (found: Option<
        &Attribute<EVENT, MSG>,
    >)
        ensures
            found == match first_where(self@.attrs, kinds_named(key@, plain, events)) {
                Some(i) => Some(&self.attrs@[i]),
                None => None,
            },
    {
        match position(&self.attrs, key, plain, events) {
            Some(i) => Some(&self.attrs[i]),
            None => None,
        }
    }

    /// The event attributes, in order.
    pub fn events(&self) -> (events: Vec<&Attribute<EVENT, MSG>>)
        ensures
            deref_all(events@) == of_kind(self.attrs@, true),
    {
        self.attrs_of_kind(true)
    }

    /// The plain attributes, in order.
    pub fn attributes(&self) -> (plain: Vec<&Attribute<EVENT, MSG>>)
        ensures
            deref_all(plain@) == of_kind(self.attrs@, false),
    {
        self.attrs_of_kind(false)
    }

    fn attrs_of_kind(&self, events: bool) -> (found: Vec<&Attribute<EVENT, MSG>>)
        ensures
            deref_all(found@) == of_kind(self.attrs@, events),
    {
        let mut found: Vec<&Attribute<EVENT, MSG>> = Vec::new();
        let ghost pred = |a: Attribute<EVENT, MSG>| a@.is_event() == events;
        let mut i: usize = 0;
        proof {
            reveal(Seq::filter);
        }
        while i < self.attrs.len()
            invariant
                i <= self.attrs.len(),
                pred == |a: Attribute<EVENT, MSG>| a@.is_event() == events,
                deref_all(found@) == self.attrs@.take(i as int).filter(pred),
            decreases self.attrs.len() - i,
        {
            let attr = &self.attrs[i];
            proof {
                reveal(Seq::filter);
                assert(self.attrs@.take(i + 1).drop_last() =~= self.attrs@.take(i as int));
            }
            if attr.is_event() == events {
                found.push(attr);
            }
            i = i + 1;
        }
        proof {
            assert(self.attrs@.take(self.attrs@.len() as int) =~= self.attrs@);
        }
        found
    }
}

} // verus!
