//! The typed half of the DSL: a type built from one element's attributes,
//! and the messages with which building a tree of them fails.
use vstd::prelude::*;
use crate::dsl::{attrs_view, find_attr, first_attr, Element, ElementView};

verus! {

/// Why a DSL element could not be turned into its typed value.
#[derive(Debug, Clone, PartialEq)]
pub struct TagParseError {
    pub message: String,
}

/// A type that can be built from one DSL element's attributes; the tag
/// name it binds to is matched exactly against `Element::tag`.
pub trait DslTag: Sized + 'static {
    const TAG_NAME: &'static str;

    fn from_attrs(attrs: &[(String, String)]) -> Result<Self, TagParseError>;
}

pub open spec fn unknown_tag_msg(tag: Seq<char>) -> Seq<char> {
    "unknown DSL tag '<"@ + tag
        + ">' — no type registered for it (typo, or missing DslRegistry::register call?)"@
}

pub open spec fn tag_failure_msg(tag: Seq<char>, message: Seq<char>) -> Seq<char> {
    "<"@ + tag + ">: "@ + message
}

/// The error for an element whose tag has no registered type.
pub fn unknown_tag(tag: &String) -> (e: TagParseError)
    ensures
        e.message@ == unknown_tag_msg(tag@),
{
    let mut message = "unknown DSL tag '<".to_owned();
    message.append(tag.as_str());
    message.append(
        ">' — no type registered for it (typo, or missing DslRegistry::register call?)",
    );
    TagParseError { message }
}

/// The error for an element whose registered type refused its attributes
/// with `cause`: the cause, prefixed by the element's tag.
pub fn tag_failure(tag: &String, cause: &TagParseError) -> (e: TagParseError)
    ensures
        e.message@ == tag_failure_msg(tag@, cause.message@),
{
    let mut message = "<".to_owned();
    message.append(tag.as_str());
    message.append(">: ");
    message.append(cause.message.as_str());
    TagParseError { message }
}


/// Tag names bound to builders of typed values. Binding a name again
/// replaces its builder.
pub struct TagTable<F> {
    names: Vec<String>,
    builders: Vec<F>,
}

impl<F> TagTable<F> {
    /// Distinct names, one builder each.
    pub closed spec fn wf(&self) -> bool {
        &&& self.names@.len() == self.builders@.len()
        &&& forall|i: int, j: int|
            0 <= i < j < self.names@.len() ==> (#[trigger] self.names@[i])@ != (#[trigger] self.names@[j])@
    }

    /// The builder bound to `tag`, if any.
    pub closed spec fn builder_for(&self, tag: Seq<char>) -> Option<F> {
        if exists|i: int| 0 <= i < self.names@.len() && (#[trigger] self.names@[i])@ == tag {
            let i = choose|i: int| 0 <= i < self.names@.len() && (#[trigger] self.names@[i])@ == tag;
            Some(self.builders@[i])
        } else {
            None
        }
    }

    /// A table with no tag bound.
    pub fn new() -> (r: Self)
        ensures
            r.wf(),
            forall|t: Seq<char>| #[trigger] r.builder_for(t) is None,
    {
        TagTable { names: Vec::new(), builders: Vec::new() }
    }

    /// Where `tag` is bound, if it is.
    fn position(&self, tag: &String) -> (r: Option<usize>)
        requires
            self.wf(),
        ensures
            match r {
                Some(i) => i < self.names@.len() && self.names@[i as int]@ == tag@ && self.builder_for(tag@) == Some(
                    self.builders@[i as int],
                ),
                None => self.builder_for(tag@) is None,
            },
    {
        let mut i: usize = 0;
        while i < self.names.len()
            invariant
                self.wf(),
                i <= self.names@.len(),
                forall|k: int| 0 <= k < i ==> (#[trigger] self.names@[k])@ != tag@,
            decreases self.names@.len() - i,
        {
            if self.names[i] == *tag {
                proof {
                    let w = choose|k: int| 0 <= k < self.names@.len() && (#[trigger] self.names@[k])@ == tag@;
                    if w != i {
                        if w < i {
                            assert(self.names@[w]@ != tag@);
                        } else {
                            assert(self.names@[i as int]@ != self.names@[w]@);
                        }
                    }
                }
                return Some(i);
            }
            i = i + 1;
        }
        None
    }

    /// Binds `name` to `builder`, replacing an earlier builder of that
    /// name; every other binding stays.
    pub fn bind(&mut self, name: String, builder: F)
        requires
            old(self).wf(),
        ensures
            final(self).wf(),
            final(self).builder_for(name@) == Some(builder),
            forall|t: Seq<char>| t != name@ ==> #[trigger] final(self).builder_for(t) == old(self).builder_for(t),
    {
        match self.position(&name) {
            Some(i) => {
                let ghost before = self.builders@;
                self.builders.set(i, builder);
                assert forall|t: Seq<char>| t != name@ implies #[trigger] self.builder_for(t) == old(self).builder_for(
                    t,
                ) by {
                    if exists|k: int| 0 <= k < self.names@.len() && (#[trigger] self.names@[k])@ == t {
                        let k = choose|k: int| 0 <= k < self.names@.len() && (#[trigger] self.names@[k])@ == t;
                        assert(k != i);
                    }
                }
                assert(self.builder_for(name@) == Some(builder)) by {
                    let k = choose|k: int| 0 <= k < self.names@.len() && (#[trigger] self.names@[k])@ == name@;
                    if k != i {
                        if k < i {
                            assert(self.names@[k]@ != self.names@[i as int]@);
                        } else {
                            assert(self.names@[i as int]@ != self.names@[k]@);
                        }
                    }
                }
            },
            None => {
                let ghost n = self.names@.len();
                let ghost key = name@;
                self.names.push(name);
                self.builders.push(builder);
                assert forall|t: Seq<char>| t != key implies #[trigger] self.builder_for(t) == old(self).builder_for(
                    t,
                ) by {
                    if exists|k: int| 0 <= k < self.names@.len() && (#[trigger] self.names@[k])@ == t {
                        let k = choose|k: int| 0 <= k < self.names@.len() && (#[trigger] self.names@[k])@ == t;
                        assert(k < n);
                        assert(old(self).names@[k]@ == t);
                    }
                    if exists|k: int| 0 <= k < old(self).names@.len() && (#[trigger] old(self).names@[k])@ == t {
                        let k = choose|k: int| 0 <= k < old(self).names@.len() && (#[trigger] old(self).names@[k])@ == t;
                        assert(self.names@[k]@ == t);
                    }
                }
                assert(self.names@[n as int]@ == key);
                assert(self.builder_for(key) == Some(builder)) by {
                    let k = choose|k: int| 0 <= k < self.names@.len() && (#[trigger] self.names@[k])@ == key;
                    if k < n {
                        assert(old(self).names@[k]@ == key);
                    }
                }
            },
        }
    }
}

/// A built element: its tag, its typed value and its built children.
#[derive(Debug)]
pub struct BuiltTree<V> {
    pub tag: String,
    pub value: V,
    pub children: Vec<BuiltTree<V>>,
}

impl<F> TagTable<F> {
    /// Every bound builder accepts every list of attributes and gives one
    /// outcome for it, as a type's `DslTag::from_attrs` does.
    pub closed spec fn callable<V>(&self) -> bool
        where F: Fn(&Vec<(String, String)>) -> Result<V, TagParseError>
    {
        &&& forall|i: int, a: &Vec<(String, String)>|
            0 <= i < self.builders@.len() ==> #[trigger] call_requires(self.builders@[i], (a,))
        &&& forall|i: int, a: &Vec<(String, String)>, r1: Result<V, TagParseError>, r2: Result<V, TagParseError>|
            0 <= i < self.builders@.len() && #[trigger] call_ensures(self.builders@[i], (a,), r1) && #[trigger] call_ensures(
                self.builders@[i],
                (a,),
                r2,
            ) ==> r1 == r2
    }
}

/// What builder `f` makes of `attrs`.
pub open spec fn outcome_of<V, F: Fn(&Vec<(String, String)>) -> Result<V, TagParseError>>(
    f: F,
    attrs: &Vec<(String, String)>,
) -> Result<V, TagParseError> {
    choose|o: Result<V, TagParseError>| call_ensures(f, (attrs,), o)
}

/// A built tree as values.
#[verifier::ext_equal]
pub struct BuiltView<V> {
    pub tag: Seq<char>,
    pub value: V,
    pub children: Seq<BuiltView<V>>,
}

/// The value of a built tree.
pub open spec fn built_view<V>(t: BuiltTree<V>) -> BuiltView<V>
    decreases t,
{
    BuiltView {
        tag: t.tag@,
        value: t.value,
        children: Seq::new(
            t.children@.len(),
            |i: int| if 0 <= i < t.children@.len() { built_view(t.children@[i]) } else { arbitrary() },
        ),
    }
}

/// What building `e` against `table` gives: an unbound tag is an error
/// naming it; a builder's refusal is its message prefixed by the tag;
/// otherwise the node holds the builder's value and its children are
/// built in order, the first error ending the build.
pub open spec fn build_spec<V, F: Fn(&Vec<(String, String)>) -> Result<V, TagParseError>>(
    table: TagTable<F>,
    e: Element,
) -> Result<BuiltView<V>, Seq<char>>
    decreases e, e.children@.len() + 1,
{
    match table.builder_for(e.tag@) {
        None => Err(unknown_tag_msg(e.tag@)),
        Some(f) => match outcome_of::<V, F>(f, &e.attrs) {
            Err(c) => Err(tag_failure_msg(e.tag@, c.message@)),
            Ok(v) => match build_children_spec::<V, F>(table, e, e.children@.len() as int) {
                Err(m) => Err(m),
                Ok(ks) => Ok(BuiltView { tag: e.tag@, value: v, children: ks }),
            },
        },
    }
}

/// What building the first `n` children of `e` gives, in order, the first
/// error ending the build.
pub open spec fn build_children_spec<V, F: Fn(&Vec<(String, String)>) -> Result<V, TagParseError>>(
    table: TagTable<F>,
    e: Element,
    n: int,
) -> Result<Seq<BuiltView<V>>, Seq<char>>
    decreases e, n,
{
    if n <= 0 || n > e.children@.len() {
        Ok(Seq::empty())
    } else {
        match build_children_spec::<V, F>(table, e, n - 1) {
            Err(m) => Err(m),
            Ok(ks) => match build_spec::<V, F>(table, e.children@[n - 1]) {
                Err(m) => Err(m),
                Ok(k) => Ok(ks.push(k)),
            },
        }
    }
}

/// Builds `element` and its descendants, each with the builder bound to
/// its tag, children in source order. An unbound tag is an error naming
/// it, never a skipped node; a builder's refusal is reported prefixed by
/// its element's tag; the first error, in document order, ends the build.
pub fn build_tree<V, F: Fn(&Vec<(String, String)>) -> Result<V, TagParseError>>(
    table: &TagTable<F>,
    element: &Element,
) -> (r: Result<BuiltTree<V>, TagParseError>)
    requires
        table.wf(),
        table.callable(),
    ensures
        build_spec::<V, F>(*table, *element) == match r {
            Ok(t) => Ok(built_view(t)),
            Err(e) => Err(e.message@),
        },
    decreases element,
{
    let at = match table.position(&element.tag) {
        None => {
            return Err(unknown_tag(&element.tag));
        },
        Some(i) => i,
    };
    let outcome = (table.builders[at])(&element.attrs);
    proof {
        let f = table.builders@[at as int];
        let c = outcome_of::<V, F>(f, &element.attrs);
        assert(call_ensures(f, (&element.attrs,), outcome));
        assert(call_ensures(f, (&element.attrs,), c));
        assert(c == outcome);
    }
    let value = match outcome {
        Err(cause) => {
            return Err(tag_failure(&element.tag, &cause));
        },
        Ok(v) => v,
    };
    let ghost fv = value;
    let mut children: Vec<BuiltTree<V>> = Vec::new();
    let mut i: usize = 0;
    assert(Seq::new(0nat, |j: int| built_view(children@[j])) =~= Seq::<BuiltView<V>>::empty());
    while i < element.children.len()
        invariant
            table.wf(),
            table.callable(),
            table.builder_for(element.tag@) matches Some(f) && outcome_of::<V, F>(f, &element.attrs) == Ok::<
                V,
                TagParseError,
            >(fv),
            i <= element.children@.len(),
            children@.len() == i,
            build_children_spec::<V, F>(*table, *element, i as int) == Ok::<Seq<BuiltView<V>>, Seq<char>>(
                Seq::new(i as nat, |j: int| built_view(children@[j])),
            ),
        decreases element.children@.len() - i,
    {
        let child = match build_tree(table, &element.children[i]) {
            Ok(c) => c,
            Err(err) => {
                assert(build_children_spec::<V, F>(*table, *element, i + 1) == Err::<Seq<BuiltView<V>>, Seq<char>>(
                    err.message@,
                ));
                proof {
                    lemma_children_error_stays::<V, F>(*table, *element, i + 1, element.children@.len() as int, err.message@);
                }
                return Err(err);
            },
        };
        let ghost before = children@;
        children.push(child);
        proof {
            assert(Seq::new((i + 1) as nat, |j: int| built_view(children@[j])) =~= Seq::new(
                i as nat,
                |j: int| built_view(before[j]),
            ).push(built_view(child)));
            assert(Seq::new(i as nat, |j: int| built_view(before[j])) =~= Seq::new(
                i as nat,
                |j: int| built_view(children@[j]),
            ));
        }
        i = i + 1;
    }
    let tag = element.tag.clone();
    let t = BuiltTree { tag, value, children };
    proof {
        assert(built_view(t).children =~= Seq::new(i as nat, |j: int| built_view(t.children@[j])));
        assert(built_view(t) =~= BuiltView { tag: element.tag@, value: fv, children: built_view(t).children });
    }
    Ok(t)
}

proof fn lemma_children_ok<V, F: Fn(&Vec<(String, String)>) -> Result<V, TagParseError>>(
    table: TagTable<F>,
    e: Element,
    n: int,
)
    requires
        0 <= n <= e.children@.len(),
        build_children_spec::<V, F>(table, e, n) is Ok,
    ensures
        forall|i: int| 0 <= i < n ==> (#[trigger] build_spec::<V, F>(table, e.children@[i])) is Ok,
    decreases n,
{
    if n > 0 {
        lemma_children_ok::<V, F>(table, e, n - 1);
    }
}

/// The build fails closed: it succeeds only where every node's tag is
/// bound and every node's builder succeeds, so a tag without a builder
/// anywhere in the tree makes the whole build fail, and at the root the
/// error names that tag.
pub proof fn lemma_build_fails_closed<V, F: Fn(&Vec<(String, String)>) -> Result<V, TagParseError>>(
    table: TagTable<F>,
    e: Element,
)
    ensures
        table.builder_for(e.tag@) is None ==> build_spec::<V, F>(table, e) == Err::<BuiltView<V>, Seq<char>>(
            unknown_tag_msg(e.tag@),
        ),
        build_spec::<V, F>(table, e) is Ok ==> (table.builder_for(e.tag@) matches Some(f) && outcome_of::<V, F>(
            f,
            &e.attrs,
        ) is Ok && forall|i: int|
            0 <= i < e.children@.len() ==> (#[trigger] build_spec::<V, F>(table, e.children@[i])) is Ok),
{
    if build_spec::<V, F>(table, e) is Ok {
        lemma_children_ok::<V, F>(table, e, e.children@.len() as int);
    }
}

/// Once building the first `m` children fails, building more of them
/// fails with the same message.
proof fn lemma_children_error_stays<V, F: Fn(&Vec<(String, String)>) -> Result<V, TagParseError>>(
    table: TagTable<F>,
    e: Element,
    m: int,
    n: int,
    msg: Seq<char>,
)
    requires
        0 < m <= n <= e.children@.len(),
        build_children_spec::<V, F>(table, e, m) == Err::<Seq<BuiltView<V>>, Seq<char>>(msg),
    ensures
        build_children_spec::<V, F>(table, e, n) == Err::<Seq<BuiltView<V>>, Seq<char>>(msg),
    decreases n - m,
{
    if m < n {
        lemma_children_error_stays::<V, F>(table, e, m, n - 1, msg);
    }
}

/// The value of the attribute `field` that tag `tag` requires: the first
/// attribute of that name, or the error naming the tag and the missing
/// attribute.
pub fn required_attribute<'a>(attrs: &'a [(String, String)], tag: &str, field: &str) -> (r: Result<
    &'a str,
    TagParseError,
>)
    ensures
        match first_attr(attrs_view(attrs@), field@) {
            Some(v) => r matches Ok(x) && x@ == v,
            None => r matches Err(e) && e.message@ == tag@ + ": missing attribute '"@ + field@ + "'"@,
        },
{
    match find_attr(attrs, field) {
        Some(v) => Ok(v),
        None => {
            let mut message = tag.to_owned();
            message.append(": missing attribute '");
            message.append(field);
            message.append("'");
            Err(TagParseError { message })
        },
    }
}

/// The error for attribute `field` of tag `tag` whose text did not parse,
/// carrying the parser's own `reason`.
pub fn invalid_attribute(tag: &str, field: &str, reason: &str) -> (e: TagParseError)
    ensures
        e.message@ == tag@ + "."@ + field@ + ": "@ + reason@,
{
    let mut message = tag.to_owned();
    message.append(".");
    message.append(field);
    message.append(": ");
    message.append(reason);
    TagParseError { message }
}
} // verus!
