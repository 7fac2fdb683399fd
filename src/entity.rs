use vstd::prelude::*;
use crate::doc::{
    array, array_text, json_strs, member, member_text, object, object_text, string_array_text,
    strs,
};
use crate::expr::{interpolation, sentinel_token, PrimExpr, StackShared};
use crate::list_ref::{ListRef, Ref, ToListMappable};
use crate::text::{json_quoted, push_char, quote_json};

verus! {

/// An entity of the graph that others can point at.
pub trait Referable {
    /// The path by which expressions name the entity.
    spec fn ref_text(&self) -> Seq<char>;

    fn extract_ref(&self) -> (r: String)
        ensures
            r@ == self.ref_text(),
    ;
}

/// A resource of the graph.
pub trait Resource: Referable {

}

/// A datasource of the graph.
pub trait Datasource: Referable {

}

/// A reference to any value of the document, by its path.
pub struct PathRef {
    base: String,
}

impl Ref for PathRef {
    closed spec fn base(&self) -> Seq<char> {
        self.base@
    }

    fn new(base: String) -> (r: Self) {
        PathRef { base }
    }
}

impl PathRef {
    pub fn extract_ref(&self) -> (r: String)
        ensures
            r@ == self.base(),
    {
        self.base.clone()
    }
}

/// `base.name`: the path of a field of the value at `base`.
pub open spec fn field_path(base: Seq<char>, name: Seq<char>) -> Seq<char> {
    base + "."@ + name
}

fn field_path_text(base: &str, name: &str) -> (r: String)
    ensures
        r@ == field_path(base@, name@),
{
    let mut s = String::from_str(base);
    push_char(&mut s, '.');
    s.append(name);
    proof {
        reveal_strlit(".");
    }
    assert(s@ =~= field_path(base@, name@));
    s
}

/// The JSON text of a boolean.
pub open spec fn bool_text(b: bool) -> Seq<char> {
    if b {
        "true"@
    } else {
        "false"@
    }
}

fn bool_json(b: bool) -> (r: String)
    ensures
        r@ == bool_text(b),
{
    if b {
        String::from_str("true")
    } else {
        String::from_str("false")
    }
}

/// The marker for ignoring changes to every attribute.
pub enum IgnoreChangesAll {
    All,
}

/// Which attribute changes the provisioning engine ignores.
pub enum IgnoreChanges {
    All(IgnoreChangesAll),
    Refs(Vec<String>),
}

pub enum IgnoreView {
    All,
    Refs(Seq<Seq<char>>),
}

impl View for IgnoreChanges {
    type V = IgnoreView;

    open spec fn view(&self) -> IgnoreView {
        match self {
            IgnoreChanges::All(_) => IgnoreView::All,
            IgnoreChanges::Refs(v) => IgnoreView::Refs(strs(v@)),
        }
    }
}

/// The lifecycle settings of a resource.
pub struct ResourceLifecycle {
    pub create_before_destroy: bool,
    pub prevent_destroy: bool,
    pub ignore_changes: Option<IgnoreChanges>,
    pub replace_triggered_by: Vec<String>,
}

pub struct LifecycleView {
    pub create_before_destroy: bool,
    pub prevent_destroy: bool,
    pub ignore_changes: Option<IgnoreView>,
    pub replace_triggered_by: Seq<Seq<char>>,
}

impl View for ResourceLifecycle {
    type V = LifecycleView;

    open spec fn view(&self) -> LifecycleView {
        LifecycleView {
            create_before_destroy: self.create_before_destroy,
            prevent_destroy: self.prevent_destroy,
            ignore_changes: match self.ignore_changes {
                Some(i) => Some(i@),
                None => None,
            },
            replace_triggered_by: strs(self.replace_triggered_by@),
        }
    }
}

/// Settings that equal the defaults are left out of the document.
pub open spec fn lifecycle_is_default(l: LifecycleView) -> bool {
    !l.create_before_destroy && !l.prevent_destroy && l.ignore_changes is None
        && l.replace_triggered_by.len() == 0
}

pub open spec fn ignore_text(i: IgnoreView) -> Seq<char> {
    match i {
        IgnoreView::All => json_quoted("all"@),
        IgnoreView::Refs(r) => array(json_strs(r)),
    }
}

/// A value that the document leaves out when it equals its default.
pub trait SerdeSkipDefault {
    spec fn is_default_spec(&self) -> bool;

    fn is_default(&self) -> (r: bool)
        ensures
            r == self.is_default_spec(),
    ;

    fn is_not_default(&self) -> (r: bool)
        ensures
            r == !self.is_default_spec(),
    ;
}

impl SerdeSkipDefault for ResourceLifecycle {
    open spec fn is_default_spec(&self) -> bool {
        lifecycle_is_default(self@)
    }

    fn is_default(&self) -> (r: bool) {
        !self.create_before_destroy && !self.prevent_destroy && self.ignore_changes.is_none()
            && self.replace_triggered_by.len() == 0
    }

    fn is_not_default(&self) -> (r: bool) {
        !self.is_default()
    }
}

impl SerdeSkipDefault for Option<String> {
    open spec fn is_default_spec(&self) -> bool {
        self is None
    }

    fn is_default(&self) -> (r: bool) {
        self.is_none()
    }

    fn is_not_default(&self) -> (r: bool) {
        self.is_some()
    }
}

/// The lifecycle as it stands in the document.
pub open spec fn lifecycle_text(l: LifecycleView) -> Seq<char> {
    object(
        seq![
            member("create_before_destroy"@, bool_text(l.create_before_destroy)),
            member("prevent_destroy"@, bool_text(l.prevent_destroy)),
        ] + match l.ignore_changes {
            Some(i) => seq![member("ignore_changes"@, ignore_text(i))],
            None => Seq::<Seq<char>>::empty(),
        } + seq![member("replace_triggered_by"@, array(json_strs(l.replace_triggered_by)))],
    )
}

impl ResourceLifecycle {
    pub fn new() -> (r: ResourceLifecycle)
        ensures
            lifecycle_is_default(r@),
    {
        let r = ResourceLifecycle {
            create_before_destroy: false,
            prevent_destroy: false,
            ignore_changes: None,
            replace_triggered_by: Vec::new(),
        };
        assert(r@.replace_triggered_by =~= Seq::<Seq<char>>::empty());
        r
    }

    pub fn render(&self) -> (r: String)
        ensures
            r@ == lifecycle_text(self@),
    {
        let mut ms: Vec<String> = Vec::new();
        let b1 = bool_json(self.create_before_destroy);
        ms.push(member_text("create_before_destroy", b1.as_str()));
        let b2 = bool_json(self.prevent_destroy);
        ms.push(member_text("prevent_destroy", b2.as_str()));
        let ghost part = strs(ms@);
        match &self.ignore_changes {
            Some(IgnoreChanges::All(_)) => {
                let a = quote_json("all");
                ms.push(member_text("ignore_changes", a.as_str()));
            },
            Some(IgnoreChanges::Refs(v)) => {
                let a = string_array_text(v);
                ms.push(member_text("ignore_changes", a.as_str()));
            },
            None => {},
        }
        let a = string_array_text(&self.replace_triggered_by);
        ms.push(member_text("replace_triggered_by", a.as_str()));
        assert(strs(ms@) =~= seq![
            member("create_before_destroy"@, bool_text(self.create_before_destroy)),
            member("prevent_destroy"@, bool_text(self.prevent_destroy)),
        ] + match self@.ignore_changes {
            Some(i) => seq![member("ignore_changes"@, ignore_text(i))],
            None => Seq::<Seq<char>>::empty(),
        } + seq![member("replace_triggered_by"@, array(json_strs(self@.replace_triggered_by)))]);
        object_text(&ms)
    }
}

/// The views of a sequence of name and value pairs.
pub open spec fn pairs(v: Seq<(String, String)>) -> Seq<(Seq<char>, Seq<char>)> {
    v.map_values(|p: (String, String)| (p.0@, p.1@))
}

/// The position of the first field named `k`, or -1.
pub open spec fn find_key(f: Seq<(Seq<char>, Seq<char>)>, k: Seq<char>) -> int
    decreases f.len(),
{
    if f.len() == 0 {
        -1
    } else {
        let i = find_key(f.drop_last(), k);
        if i >= 0 {
            i
        } else if f.last().0 == k {
            f.len() - 1
        } else {
            -1
        }
    }
}

/// The fields with `k` set to `v`: in place where a field of that name exists,
/// at the end where none does.
pub open spec fn upsert(f: Seq<(Seq<char>, Seq<char>)>, k: Seq<char>, v: Seq<char>) -> Seq<
    (Seq<char>, Seq<char>),
> {
    let i = find_key(f, k);
    if i >= 0 {
        f.update(i, (k, v))
    } else {
        f.push((k, v))
    }
}

/// The members of the document that the fields become.
pub open spec fn field_members(f: Seq<(Seq<char>, Seq<char>)>) -> Seq<Seq<char>> {
    f.map_values(|p: (Seq<char>, Seq<char>)| member(p.0, p.1))
}

/// A member `"key":"value"` when `v` holds a value, none otherwise.
pub open spec fn opt_member(k: Seq<char>, v: Option<Seq<char>>) -> Seq<Seq<char>> {
    match v {
        Some(x) => seq![member(k, json_quoted(x))],
        None => seq![],
    }
}

/// The member for a list of references, left out when the list is empty.
pub open spec fn list_member(k: Seq<char>, v: Seq<Seq<char>>) -> Seq<Seq<char>> {
    if v.len() > 0 {
        seq![member(k, array(json_strs(v)))]
    } else {
        seq![]
    }
}

pub open spec fn opt_view(o: Option<String>) -> Option<Seq<char>> {
    match o {
        Some(s) => Some(s@),
        None => None,
    }
}

proof fn lemma_find_key(f: Seq<(Seq<char>, Seq<char>)>, k: Seq<char>, i: int)
    requires
        0 <= i <= f.len(),
        forall|j: int| 0 <= j < i ==> (#[trigger] f[j]).0 != k,
        i < f.len() ==> f[i].0 == k,
    ensures
        find_key(f, k) == (if i < f.len() {
            i
        } else {
            -1
        }),
    decreases f.len(),
{
    if f.len() > 0 {
        let d = f.drop_last();
        if i < f.len() - 1 {
            lemma_find_key(d, k, i);
        } else {
            lemma_find_key(d, k, d.len() as int);
        }
    }
}

/// Sets the field `k` of `fields` to `v`.
fn set_pair(fields: &mut Vec<(String, String)>, k: &str, v: String)
    ensures
        pairs(final(fields)@) == upsert(pairs(old(fields)@), k@, v@),
{
    let key = String::from_str(k);
    let ghost f = pairs(fields@);
    let mut i: usize = 0;
    while i < fields.len()
        invariant
            i <= fields@.len(),
            f == pairs(fields@),
            fields@ == old(fields)@,
            key@ == k@,
            forall|j: int| 0 <= j < i ==> (#[trigger] f[j]).0 != k@,
        decreases fields@.len() - i,
    {
        if fields[i].0 == key {
            proof {
                lemma_find_key(f, k@, i as int);
            }
            fields.set(i, (key, v));
            assert(pairs(fields@) =~= upsert(f, k@, v@));
            return;
        }
        i = i + 1;
    }
    proof {
        lemma_find_key(f, k@, i as int);
    }
    fields.push((key, v));
    assert(pairs(fields@) =~= upsert(f, k@, v@));
}

/// Appends the members of `fields` to `ms`.
fn push_field_members(ms: &mut Vec<String>, fields: &Vec<(String, String)>)
    ensures
        strs(final(ms)@) == strs(old(ms)@) + field_members(pairs(fields@)),
{
    let ghost start = strs(ms@);
    let ghost want = field_members(pairs(fields@));
    let mut i: usize = 0;
    while i < fields.len()
        invariant
            i <= fields@.len(),
            want == field_members(pairs(fields@)),
            strs(ms@) =~= start + want.take(i as int),
        decreases fields@.len() - i,
    {
        let m = member_text(fields[i].0.as_str(), fields[i].1.as_str());
        assert(m@ == want[i as int]);
        let ghost before = strs(ms@);
        ms.push(m);
        assert(strs(ms@) =~= before.push(m@));
        assert(want.take(i + 1) =~= want.take(i as int).push(want[i as int]));
        i = i + 1;
        assert(strs(ms@) =~= start + want.take(i as int));
    }
    assert(want.take(i as int) =~= want);
}

fn push_opt_member(ms: &mut Vec<String>, k: &str, v: &Option<String>)
    ensures
        strs(final(ms)@) == strs(old(ms)@) + opt_member(k@, opt_view(*v)),
{
    match v {
        Some(x) => {
            let q = quote_json(x.as_str());
            ms.push(member_text(k, q.as_str()));
        },
        None => {},
    }
    assert(strs(ms@) =~= strs(old(ms)@) + opt_member(k@, opt_view(*v)));
}

fn push_list_member(ms: &mut Vec<String>, k: &str, v: &Vec<String>)
    ensures
        strs(final(ms)@) == strs(old(ms)@) + list_member(k@, strs(v@)),
{
    if v.len() > 0 {
        let a = string_array_text(v);
        ms.push(member_text(k, a.as_str()));
    }
    assert(strs(ms@) =~= strs(old(ms)@) + list_member(k@, strs(v@)));
}

/// A resource: its type and id, and the record that the document holds for it.
pub struct ResourceData {
    pub kind_name: String,
    pub tf_id: String,
    pub depends_on: Vec<String>,
    pub provider: Option<String>,
    pub lifecycle: ResourceLifecycle,
    pub for_each: Option<String>,
    pub fields: Vec<(String, String)>,
}

pub struct ResourceView {
    pub kind_name: Seq<char>,
    pub tf_id: Seq<char>,
    pub depends_on: Seq<Seq<char>>,
    pub provider: Option<Seq<char>>,
    pub lifecycle: LifecycleView,
    pub for_each: Option<Seq<char>>,
    pub fields: Seq<(Seq<char>, Seq<char>)>,
}

impl View for ResourceData {
    type V = ResourceView;

    open spec fn view(&self) -> ResourceView {
        ResourceView {
            kind_name: self.kind_name@,
            tf_id: self.tf_id@,
            depends_on: strs(self.depends_on@),
            provider: opt_view(self.provider),
            lifecycle: self.lifecycle@,
            for_each: opt_view(self.for_each),
            fields: pairs(self.fields@),
        }
    }
}

/// `type.id`: how expressions name a resource.
pub open spec fn resource_ref(r: ResourceView) -> Seq<char> {
    r.kind_name + "."@ + r.tf_id
}

/// The record of a resource as the document holds it.
pub open spec fn resource_text(r: ResourceView) -> Seq<char> {
    object(
        list_member("depends_on"@, r.depends_on) + opt_member("provider"@, r.provider) + (if !lifecycle_is_default(r.lifecycle) {
            seq![member("lifecycle"@, lifecycle_text(r.lifecycle))]
        } else {
            Seq::<Seq<char>>::empty()
        }) + opt_member("for_each"@, r.for_each) + field_members(r.fields),
    )
}

impl Referable for ResourceData {
    open spec fn ref_text(&self) -> Seq<char> {
        resource_ref(self@)
    }

    fn extract_ref(&self) -> (r: String) {
        field_path_text(self.kind_name.as_str(), self.tf_id.as_str())
    }
}

impl Resource for ResourceData {

}

impl ResourceData {
    /// A resource of type `kind_name` named `tf_id`, with nothing set.
    pub fn new(kind_name: &str, tf_id: &str) -> (r: ResourceData)
        ensures
            r@.kind_name == kind_name@,
            r@.tf_id == tf_id@,
            r@.depends_on.len() == 0,
            r@.provider is None,
            lifecycle_is_default(r@.lifecycle),
            r@.for_each is None,
            r@.fields.len() == 0,
    {
        let r = ResourceData {
            kind_name: String::from_str(kind_name),
            tf_id: String::from_str(tf_id),
            depends_on: Vec::new(),
            provider: None,
            lifecycle: ResourceLifecycle::new(),
            for_each: None,
            fields: Vec::new(),
        };
        assert(r@.depends_on =~= Seq::<Seq<char>>::empty());
        assert(r@.fields =~= Seq::<(Seq<char>, Seq<char>)>::empty());
        r
    }

    /// Makes the resource wait for `dep`.
    pub fn depends_on<D: Referable>(self, dep: &D) -> (r: ResourceData)
        ensures
            r@ == (ResourceView { depends_on: self@.depends_on.push(dep.ref_text()), ..self@ }),
    {
        let mut r = self;
        r.depends_on.push(dep.extract_ref());
        assert(r@.depends_on =~= self@.depends_on.push(dep.ref_text()));
        r
    }

    /// Binds the resource to the provider instance `p`.
    pub fn set_provider(self, p: &ProviderData) -> (r: ResourceData)
        ensures
            r@ == (ResourceView { provider: Some(provider_ref(p@)), ..self@ }),
    {
        let mut r = self;
        r.provider = Some(p.provider_ref());
        r
    }

    pub fn set_create_before_destroy(self, v: bool) -> (r: ResourceData)
        ensures
            r@ == (ResourceView {
                lifecycle: LifecycleView { create_before_destroy: v, ..self@.lifecycle },
                ..self@
            }),
    {
        let mut r = self;
        r.lifecycle.create_before_destroy = v;
        r
    }

    pub fn set_prevent_destroy(self, v: bool) -> (r: ResourceData)
        ensures
            r@ == (ResourceView {
                lifecycle: LifecycleView { prevent_destroy: v, ..self@.lifecycle },
                ..self@
            }),
    {
        let mut r = self;
        r.lifecycle.prevent_destroy = v;
        r
    }

    /// Ignores changes to every attribute.
    pub fn ignore_changes_to_all(self) -> (r: ResourceData)
        ensures
            r@ == (ResourceView {
                lifecycle: LifecycleView {
                    ignore_changes: Some(IgnoreView::All),
                    ..self@.lifecycle
                },
                ..self@
            }),
    {
        let mut r = self;
        r.lifecycle.ignore_changes = Some(IgnoreChanges::All(IgnoreChangesAll::All));
        r
    }

    /// Ignores changes to `attr` as well; where changes to every attribute are
    /// ignored already, that stays so.
    pub fn ignore_changes_to_attr(self, attr: &str) -> (r: ResourceData)
        ensures
            r@ == (ResourceView {
                lifecycle: LifecycleView {
                    ignore_changes: Some(
                        match self@.lifecycle.ignore_changes {
                            Some(IgnoreView::All) => IgnoreView::All,
                            Some(IgnoreView::Refs(v)) => IgnoreView::Refs(v.push(attr@)),
                            None => IgnoreView::Refs(seq![attr@]),
                        },
                    ),
                    ..self@.lifecycle
                },
                ..self@
            }),
    {
        let mut r = self;
        let a = String::from_str(attr);
        match r.lifecycle.ignore_changes {
            Some(IgnoreChanges::All(_)) => {},
            Some(IgnoreChanges::Refs(v)) => {
                let mut v = v;
                let ghost v0 = strs(v@);
                v.push(a);
                assert(strs(v@) =~= v0.push(attr@));
                r.lifecycle.ignore_changes = Some(IgnoreChanges::Refs(v));
            },
            None => {
                let mut v: Vec<String> = Vec::new();
                v.push(a);
                assert(strs(v@) =~= seq![attr@]);
                r.lifecycle.ignore_changes = Some(IgnoreChanges::Refs(v));
            },
        }
        r
    }

    /// Replaces the resource whenever `other` is replaced.
    pub fn replace_triggered_by_resource<R: Resource>(self, other: &R) -> (r: ResourceData)
        ensures
            r@ == (ResourceView {
                lifecycle: LifecycleView {
                    replace_triggered_by: self@.lifecycle.replace_triggered_by.push(other.ref_text()),
                    ..self@.lifecycle
                },
                ..self@
            }),
    {
        let mut r = self;
        r.lifecycle.replace_triggered_by.push(other.extract_ref());
        assert(strs(r.lifecycle.replace_triggered_by@) =~= self@.lifecycle.replace_triggered_by.push(
            other.ref_text(),
        ));
        r
    }

    /// Replaces the resource whenever the attribute at the path `attr` changes.
    pub fn replace_triggered_by_attr(self, attr: &str) -> (r: ResourceData)
        ensures
            r@ == (ResourceView {
                lifecycle: LifecycleView {
                    replace_triggered_by: self@.lifecycle.replace_triggered_by.push(attr@),
                    ..self@.lifecycle
                },
                ..self@
            }),
    {
        let mut r = self;
        r.lifecycle.replace_triggered_by.push(String::from_str(attr));
        assert(strs(r.lifecycle.replace_triggered_by@) =~= self@.lifecycle.replace_triggered_by.push(
            attr@,
        ));
        r
    }

    /// Sets the field `name` to the JSON text `value`.
    pub fn set_field(self, name: &str, value: String) -> (r: ResourceData)
        ensures
            r@ == (ResourceView { fields: upsert(self@.fields, name@, value@), ..self@ }),
    {
        let mut r = self;
        set_pair(&mut r.fields, name, value);
        r
    }

    /// Sets the field `name` to the string `value`.
    pub fn set_str(self, name: &str, value: &str) -> (r: ResourceData)
        ensures
            r@ == (ResourceView { fields: upsert(self@.fields, name@, json_quoted(value@)), ..self@ }),
    {
        self.set_field(name, quote_json(value))
    }

    /// Sets the field `name` to the value of `e`, through a fresh token of the
    /// ledger.
    pub fn set_expr<T>(self, name: &str, e: &PrimExpr<T>, shared: &mut StackShared) -> (r: ResourceData)
        ensures
            r@ == (ResourceView {
                fields: upsert(self@.fields, name@, json_quoted(sentinel_token(old(shared)@.len()))),
                ..self@
            }),
            final(shared)@ == old(shared)@.push((sentinel_token(old(shared)@.len()), interpolation(e.text()))),
    {
        let t = e.to_field(shared);
        self.set_str(name, t.as_str())
    }

    /// A reference to the field `name` of this resource.
    pub fn field_ref<T: Ref>(&self, name: &str) -> (r: T)
        ensures
            r.base() == field_path(resource_ref(self@), name@),
    {
        let b = self.extract_ref();
        T::new(field_path_text(b.as_str(), name))
    }

    /// The record of the resource as the document holds it.
    pub fn render(&self) -> (r: String)
        ensures
            r@ == resource_text(self@),
    {
        let mut ms: Vec<String> = Vec::new();
        push_list_member(&mut ms, "depends_on", &self.depends_on);
        push_opt_member(&mut ms, "provider", &self.provider);
        let ghost m1 = strs(ms@);
        if !self.lifecycle.is_default() {
            let l = self.lifecycle.render();
            ms.push(member_text("lifecycle", l.as_str()));
        }
        assert(strs(ms@) =~= m1 + (if !lifecycle_is_default(self@.lifecycle) {
            seq![member("lifecycle"@, lifecycle_text(self@.lifecycle))]
        } else {
            Seq::<Seq<char>>::empty()
        }));
        push_opt_member(&mut ms, "for_each", &self.for_each);
        push_field_members(&mut ms, &self.fields);
        assert(strs(ms@) =~= list_member("depends_on"@, self@.depends_on) + opt_member("provider"@, self@.provider) + (if !lifecycle_is_default(self@.lifecycle) {
            seq![member("lifecycle"@, lifecycle_text(self@.lifecycle))]
        } else {
            Seq::<Seq<char>>::empty()
        }) + opt_member("for_each"@, self@.for_each) + field_members(self@.fields));
        object_text(&ms)
    }
}

impl ToListMappable for ResourceData {
    type O = (ResourceData, ListRef<PathRef>);

    open spec fn map_post(&self, base: Seq<char>, r: (ResourceData, ListRef<PathRef>)) -> bool {
        &&& r.0@ == (ResourceView { for_each: Some(interpolation(base)), ..self@ })
        &&& r.1.base() == resource_ref(self@)
    }

    fn do_map(self, base: String) -> (r: (ResourceData, ListRef<PathRef>)) {
        let mut r = self;
        let mut e = String::from_str("${");
        e.append(base.as_str());
        push_char(&mut e, '}');
        proof {
            reveal_strlit("${");
            reveal_strlit("}");
        }
        assert(e@ =~= interpolation(base@));
        r.for_each = Some(e);
        let b = r.extract_ref();
        (r, ListRef::new(b))
    }
}

/// A provider instance: its type, where it comes from, and its settings.
pub struct ProviderData {
    pub kind_name: String,
    pub source: String,
    pub version: String,
    pub alias: Option<String>,
    pub fields: Vec<(String, String)>,
}

pub struct ProviderView {
    pub kind_name: Seq<char>,
    pub source: Seq<char>,
    pub version: Seq<char>,
    pub alias: Option<Seq<char>>,
    pub fields: Seq<(Seq<char>, Seq<char>)>,
}

impl View for ProviderData {
    type V = ProviderView;

    open spec fn view(&self) -> ProviderView {
        ProviderView {
            kind_name: self.kind_name@,
            source: self.source@,
            version: self.version@,
            alias: opt_view(self.alias),
            fields: pairs(self.fields@),
        }
    }
}

/// `type`, or `type.alias` for an aliased instance.
pub open spec fn provider_ref(p: ProviderView) -> Seq<char> {
    match p.alias {
        Some(a) => p.kind_name + "."@ + a,
        None => p.kind_name,
    }
}

/// The settings of a provider instance as the document holds them.
pub open spec fn provider_text(p: ProviderView) -> Seq<char> {
    object(opt_member("alias"@, p.alias) + field_members(p.fields))
}

/// Where the provider comes from, as the document's requirements hold it.
pub open spec fn provider_type_text(p: ProviderView) -> Seq<char> {
    object(
        seq![member("source"@, json_quoted(p.source)), member("version"@, json_quoted(p.version))],
    )
}

impl ProviderData {
    pub fn new(kind_name: &str, source: &str, version: &str) -> (r: ProviderData)
        ensures
            r@.kind_name == kind_name@,
            r@.source == source@,
            r@.version == version@,
            r@.alias is None,
            r@.fields.len() == 0,
    {
        ProviderData {
            kind_name: String::from_str(kind_name),
            source: String::from_str(source),
            version: String::from_str(version),
            alias: None,
            fields: Vec::new(),
        }
    }

    pub fn set_alias(self, alias: &str) -> (r: ProviderData)
        ensures
            r@ == (ProviderView { alias: Some(alias@), ..self@ }),
    {
        let mut r = self;
        r.alias = Some(String::from_str(alias));
        r
    }

    /// Sets the field `name` to the JSON text `value`.
    pub fn set_field(self, name: &str, value: String) -> (r: ProviderData)
        ensures
            r@ == (ProviderView { fields: upsert(self@.fields, name@, value@), ..self@ }),
    {
        let mut r = self;
        set_pair(&mut r.fields, name, value);
        r
    }

    /// How resources name this provider instance.
    pub fn provider_ref(&self) -> (r: String)
        ensures
            r@ == provider_ref(self@),
    {
        match &self.alias {
            Some(a) => field_path_text(self.kind_name.as_str(), a.as_str()),
            None => self.kind_name.clone(),
        }
    }

    pub fn render(&self) -> (r: String)
        ensures
            r@ == provider_text(self@),
    {
        let mut ms: Vec<String> = Vec::new();
        push_opt_member(&mut ms, "alias", &self.alias);
        push_field_members(&mut ms, &self.fields);
        assert(strs(ms@) =~= opt_member("alias"@, self@.alias) + field_members(self@.fields));
        object_text(&ms)
    }

    pub fn render_type(&self) -> (r: String)
        ensures
            r@ == provider_type_text(self@),
    {
        let mut ms: Vec<String> = Vec::new();
        let s = quote_json(self.source.as_str());
        ms.push(member_text("source", s.as_str()));
        let v = quote_json(self.version.as_str());
        ms.push(member_text("version", v.as_str()));
        assert(strs(ms@) =~= seq![
            member("source"@, json_quoted(self@.source)),
            member("version"@, json_quoted(self@.version)),
        ]);
        object_text(&ms)
    }
}

/// A datasource: its type and id, and the record that the document holds for
/// it.
pub struct DatasourceData {
    pub kind_name: String,
    pub tf_id: String,
    pub depends_on: Vec<String>,
    pub provider: Option<String>,
    pub for_each: Option<String>,
    pub fields: Vec<(String, String)>,
}

pub struct DatasourceView {
    pub kind_name: Seq<char>,
    pub tf_id: Seq<char>,
    pub depends_on: Seq<Seq<char>>,
    pub provider: Option<Seq<char>>,
    pub for_each: Option<Seq<char>>,
    pub fields: Seq<(Seq<char>, Seq<char>)>,
}

impl View for DatasourceData {
    type V = DatasourceView;

    open spec fn view(&self) -> DatasourceView {
        DatasourceView {
            kind_name: self.kind_name@,
            tf_id: self.tf_id@,
            depends_on: strs(self.depends_on@),
            provider: opt_view(self.provider),
            for_each: opt_view(self.for_each),
            fields: pairs(self.fields@),
        }
    }
}

/// `data.type.id`: how expressions name a datasource.
pub open spec fn datasource_ref(d: DatasourceView) -> Seq<char> {
    "data."@ + d.kind_name + "."@ + d.tf_id
}

/// The record of a datasource as the document holds it.
pub open spec fn datasource_text(d: DatasourceView) -> Seq<char> {
    object(
        list_member("depends_on"@, d.depends_on) + opt_member("provider"@, d.provider)
            + opt_member("for_each"@, d.for_each) + field_members(d.fields),
    )
}

impl Referable for DatasourceData {
    open spec fn ref_text(&self) -> Seq<char> {
        datasource_ref(self@)
    }

    fn extract_ref(&self) -> (r: String) {
        let mut s = String::from_str("data.");
        s.append(self.kind_name.as_str());
        let r = field_path_text(s.as_str(), self.tf_id.as_str());
        proof {
            reveal_strlit("data.");
        }
        assert(r@ =~= datasource_ref(self@));
        r
    }
}

impl Datasource for DatasourceData {

}

impl DatasourceData {
    /// A datasource of type `kind_name` named `tf_id`, with nothing set.
    pub fn new(kind_name: &str, tf_id: &str) -> (r: DatasourceData)
        ensures
            r@.kind_name == kind_name@,
            r@.tf_id == tf_id@,
            r@.depends_on.len() == 0,
            r@.provider is None,
            r@.for_each is None,
            r@.fields.len() == 0,
    {
        let r = DatasourceData {
            kind_name: String::from_str(kind_name),
            tf_id: String::from_str(tf_id),
            depends_on: Vec::new(),
            provider: None,
            for_each: None,
            fields: Vec::new(),
        };
        assert(r@.depends_on =~= Seq::<Seq<char>>::empty());
        assert(r@.fields =~= Seq::<(Seq<char>, Seq<char>)>::empty());
        r
    }

    /// Makes the datasource wait for `dep`.
    pub fn depends_on<D: Referable>(self, dep: &D) -> (r: DatasourceData)
        ensures
            r@ == (DatasourceView { depends_on: self@.depends_on.push(dep.ref_text()), ..self@ }),
    {
        let mut r = self;
        r.depends_on.push(dep.extract_ref());
        assert(r@.depends_on =~= self@.depends_on.push(dep.ref_text()));
        r
    }

    /// Binds the datasource to the provider instance `p`.
    pub fn set_provider(self, p: &ProviderData) -> (r: DatasourceData)
        ensures
            r@ == (DatasourceView { provider: Some(provider_ref(p@)), ..self@ }),
    {
        let mut r = self;
        r.provider = Some(p.provider_ref());
        r
    }

    /// Sets the field `name` to the JSON text `value`.
    pub fn set_field(self, name: &str, value: String) -> (r: DatasourceData)
        ensures
            r@ == (DatasourceView { fields: upsert(self@.fields, name@, value@), ..self@ }),
    {
        let mut r = self;
        set_pair(&mut r.fields, name, value);
        r
    }

    /// A reference to the field `name` of this datasource.
    pub fn field_ref<T: Ref>(&self, name: &str) -> (r: T)
        ensures
            r.base() == field_path(datasource_ref(self@), name@),
    {
        let b = self.extract_ref();
        T::new(field_path_text(b.as_str(), name))
    }

    /// The record of the datasource as the document holds it.
    pub fn render(&self) -> (r: String)
        ensures
            r@ == datasource_text(self@),
    {
        let mut ms: Vec<String> = Vec::new();
        push_list_member(&mut ms, "depends_on", &self.depends_on);
        push_opt_member(&mut ms, "provider", &self.provider);
        push_opt_member(&mut ms, "for_each", &self.for_each);
        push_field_members(&mut ms, &self.fields);
        assert(strs(ms@) =~= list_member("depends_on"@, self@.depends_on) + opt_member(
            "provider"@,
            self@.provider,
        ) + opt_member("for_each"@, self@.for_each) + field_members(self@.fields));
        object_text(&ms)
    }
}

impl ToListMappable for DatasourceData {
    type O = (DatasourceData, ListRef<PathRef>);

    open spec fn map_post(&self, base: Seq<char>, r: (DatasourceData, ListRef<PathRef>)) -> bool {
        &&& r.0@ == (DatasourceView { for_each: Some(interpolation(base)), ..self@ })
        &&& r.1.base() == datasource_ref(self@)
    }

    fn do_map(self, base: String) -> (r: (DatasourceData, ListRef<PathRef>)) {
        let mut r = self;
        let mut e = String::from_str("${");
        e.append(base.as_str());
        push_char(&mut e, '}');
        proof {
            reveal_strlit("${");
            reveal_strlit("}");
        }
        assert(e@ =~= interpolation(base@));
        r.for_each = Some(e);
        let b = r.extract_ref();
        (r, ListRef::new(b))
    }
}

/// The resource with its field `k` set to `v`.
pub open spec fn with_field(r: ResourceView, k: Seq<char>, v: Seq<char>) -> ResourceView {
    ResourceView { fields: upsert(r.fields, k, v), ..r }
}

/// Setting fields never moves a resource's references: after any two settings,
/// in either order, the reference to field `m` is `type.id.m`.
pub proof fn field_refs_ignore_settings(
    r: ResourceView,
    a: Seq<char>,
    x: Seq<char>,
    b: Seq<char>,
    y: Seq<char>,
    m: Seq<char>,
)
    ensures
        field_path(resource_ref(with_field(with_field(r, a, x), b, y)), m) == field_path(
            r.kind_name + "."@ + r.tf_id,
            m,
        ),
        field_path(resource_ref(with_field(with_field(r, b, y), a, x)), m) == field_path(
            r.kind_name + "."@ + r.tf_id,
            m,
        ),
{
}

/// A nested block generated by a loop: one `content` per element of the
/// collection at `for_each`, with the element named `iterator` inside it.
pub struct DynamicBlock<T> {
    pub for_each: String,
    pub iterator: String,
    pub content: T,
}

/// What a nested block field takes: literal blocks, or one generated by a
/// loop.
pub enum BlockAssignable<T> {
    Literal(Vec<T>),
    Dynamic(DynamicBlock<T>),
}

impl<T> From<Vec<T>> for BlockAssignable<T> {
    fn from(value: Vec<T>) -> (r: BlockAssignable<T>) {
        BlockAssignable::Literal(value)
    }
}

impl<T> vstd::std_specs::convert::FromSpecImpl<Vec<T>> for BlockAssignable<T> {
    open spec fn obeys_from_spec() -> bool {
        true
    }

    open spec fn from_spec(v: Vec<T>) -> BlockAssignable<T> {
        BlockAssignable::Literal(v)
    }
}

impl<T> From<DynamicBlock<T>> for BlockAssignable<T> {
    fn from(value: DynamicBlock<T>) -> (r: BlockAssignable<T>) {
        BlockAssignable::Dynamic(value)
    }
}

impl<T> vstd::std_specs::convert::FromSpecImpl<DynamicBlock<T>> for BlockAssignable<T> {
    open spec fn obeys_from_spec() -> bool {
        true
    }

    open spec fn from_spec(v: DynamicBlock<T>) -> BlockAssignable<T> {
        BlockAssignable::Dynamic(v)
    }
}

} // verus!
