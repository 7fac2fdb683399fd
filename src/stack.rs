use vstd::prelude::*;
use crate::doc::{
    types_of, values_of, first_of_each, grouped_text, listed, member, member_text, members_for, members_of, object,
    object_text, sort_entries, sort_entry_texts, strs, two_level, entries, Entry, EntryText,
};
use crate::entity::{
    datasource_text, pairs, provider_text, provider_type_text, resource_text, DatasourceData,
    DatasourceView, ProviderData, ProviderView, ResourceData, ResourceView,
};
use crate::expr::{resolve, Func, PrimExpr, PrimType, StackShared};
use crate::text::{json_quoted, quote_json};

verus! {

/// The kinds of entity a graph holds.
#[derive(Clone, Copy, Debug, PartialEq, Eq, Structural)]
pub enum ComponentType {
    ProviderType,
    Provider,
    Variable,
    Datasource,
    Resource,
    Output,
}

/// Why a graph could not be written out.
pub enum StackError {
    /// Two entities of one kind share a type and an id: the kind, the type
    /// (empty for variables and outputs) and the id.
    Duplicate(ComponentType, String, String),
}

/// Use this to create a new stack.
pub struct BuildStack {}

/// A graph of entities and the ledger of its expressions.
pub struct Stack {
    pub providers: Vec<ProviderData>,
    pub variables: Vec<(String, String)>,
    pub datasources: Vec<DatasourceData>,
    pub resources: Vec<ResourceData>,
    pub outputs: Vec<(String, String)>,
    pub shared: StackShared,
}

pub struct StackView {
    pub providers: Seq<ProviderView>,
    pub variables: Seq<(Seq<char>, Seq<char>)>,
    pub datasources: Seq<DatasourceView>,
    pub resources: Seq<ResourceView>,
    pub outputs: Seq<(Seq<char>, Seq<char>)>,
    pub ledger: Seq<(Seq<char>, Seq<char>)>,
}

impl View for Stack {
    type V = StackView;

    open spec fn view(&self) -> StackView {
        StackView {
            providers: self.providers@.map_values(|p: ProviderData| p@),
            variables: pairs(self.variables@),
            datasources: self.datasources@.map_values(|d: DatasourceData| d@),
            resources: self.resources@.map_values(|r: ResourceData| r@),
            outputs: pairs(self.outputs@),
            ledger: self.shared@,
        }
    }
}

/// A graph with no entity and an empty ledger.
pub open spec fn is_empty_graph(s: StackView) -> bool {
    &&& s.providers.len() == 0
    &&& s.variables.len() == 0
    &&& s.datasources.len() == 0
    &&& s.resources.len() == 0
    &&& s.outputs.len() == 0
    &&& s.ledger.len() == 0
}

pub open spec fn provider_entries(s: StackView) -> Seq<Entry> {
    s.providers.map_values(|p: ProviderView| (p.kind_name, Seq::<char>::empty(), provider_text(p)))
}

pub open spec fn provider_type_entries(s: StackView) -> Seq<Entry> {
    s.providers.map_values(
        |p: ProviderView| (p.kind_name, Seq::<char>::empty(), provider_type_text(p)),
    )
}

pub open spec fn keyed_entries(v: Seq<(Seq<char>, Seq<char>)>) -> Seq<Entry> {
    v.map_values(|p: (Seq<char>, Seq<char>)| (Seq::<char>::empty(), p.0, p.1))
}

pub open spec fn datasource_entries(s: StackView) -> Seq<Entry> {
    s.datasources.map_values(|d: DatasourceView| (d.kind_name, d.tf_id, datasource_text(d)))
}

pub open spec fn resource_entries(s: StackView) -> Seq<Entry> {
    s.resources.map_values(|r: ResourceView| (r.kind_name, r.tf_id, resource_text(r)))
}

/// Whether an entry before position `i` has the type and id of entry `i`.
pub open spec fn has_earlier(s: Seq<Entry>, i: int) -> bool {
    exists|j: int| 0 <= j < i && s[j].0 == s[i].0 && s[j].1 == s[i].1
}

/// The first position whose type and id an earlier entry has, or -1.
pub open spec fn first_dup(s: Seq<Entry>) -> int
    decreases s.len(),
{
    if s.len() == 0 {
        -1
    } else {
        let d = first_dup(s.drop_last());
        if d >= 0 {
            d
        } else if has_earlier(s, s.len() - 1) {
            s.len() - 1
        } else {
            -1
        }
    }
}

/// The section for the engine itself: the local state file and the providers
/// that the graph requires.
pub open spec fn terraform_text(state_path: Seq<char>, s: StackView) -> Seq<char> {
    object(
        seq![
            member(
                "backend"@,
                object(seq![member("local"@, object(seq![member("path"@, json_quoted(state_path))]))]),
            ),
            member("required_providers"@, first_of_each(sort_entries(provider_type_entries(s)))),
        ],
    )
}

/// A one-member section when `present`, nothing otherwise.
pub open spec fn section(present: bool, k: Seq<char>, v: Seq<char>) -> Seq<Seq<char>> {
    if present {
        seq![member(k, v)]
    } else {
        seq![]
    }
}

/// The document before its tokens are replaced: its sections in the order of
/// their names, each left out when it would be empty, but the engine's own.
pub open spec fn document(s: StackView, state_path: Seq<char>) -> Seq<char> {
    object(
        section(
            s.datasources.len() > 0,
            "data"@,
            two_level(sort_entries(datasource_entries(s))),
        ) + section(
            s.outputs.len() > 0,
            "output"@,
            object(members_of(sort_entries(keyed_entries(s.outputs)), Seq::<char>::empty())),
        ) + section(s.providers.len() > 0, "provider"@, listed(sort_entries(provider_entries(s))))
            + section(
            s.resources.len() > 0,
            "resource"@,
            two_level(sort_entries(resource_entries(s))),
        ) + seq![member("terraform"@, terraform_text(state_path, s))] + section(
            s.variables.len() > 0,
            "variable"@,
            object(members_of(sort_entries(keyed_entries(s.variables)), Seq::<char>::empty())),
        ),
    )
}

/// What writing out the graph gives: the first duplicate, looking at variables,
/// then datasources, then resources, then outputs; else the document with every
/// token replaced.
pub open spec fn serialize_result(s: StackView, state_path: Seq<char>) -> Result<
    Seq<char>,
    (ComponentType, Seq<char>, Seq<char>),
> {
    let v = keyed_entries(s.variables);
    let d = datasource_entries(s);
    let r = resource_entries(s);
    let o = keyed_entries(s.outputs);
    if first_dup(v) >= 0 {
        Err((ComponentType::Variable, v[first_dup(v)].0, v[first_dup(v)].1))
    } else if first_dup(d) >= 0 {
        Err((ComponentType::Datasource, d[first_dup(d)].0, d[first_dup(d)].1))
    } else if first_dup(r) >= 0 {
        Err((ComponentType::Resource, r[first_dup(r)].0, r[first_dup(r)].1))
    } else if first_dup(o) >= 0 {
        Err((ComponentType::Output, o[first_dup(o)].0, o[first_dup(o)].1))
    } else {
        Ok(resolve(document(s, state_path), s.ledger))
    }
}

pub open spec fn result_view(r: Result<String, StackError>) -> Result<
    Seq<char>,
    (ComponentType, Seq<char>, Seq<char>),
> {
    match r {
        Ok(t) => Ok(t@),
        Err(StackError::Duplicate(k, t, id)) => Err((k, t@, id@)),
    }
}

proof fn lemma_first_dup_range(s: Seq<Entry>)
    ensures
        -1 <= first_dup(s) < s.len(),
    decreases s.len(),
{
    if s.len() > 0 {
        lemma_first_dup_range(s.drop_last());
    }
}

proof fn lemma_first_dup_prefix(s: Seq<Entry>, n: int)
    requires
        0 <= n <= s.len(),
        first_dup(s.take(n)) >= 0,
    ensures
        first_dup(s) == first_dup(s.take(n)),
    decreases s.len(),
{
    if n == s.len() {
        assert(s.take(n) =~= s);
    } else {
        assert(s.drop_last().take(n) =~= s.take(n));
        lemma_first_dup_prefix(s.drop_last(), n);
    }
}

/// The position of the first entry whose type and id an earlier one has.
fn first_duplicate(s: &Vec<EntryText>) -> (r: Option<usize>)
    ensures
        match r {
            Some(i) => first_dup(entries(s@)) == i,
            None => first_dup(entries(s@)) == -1,
        },
{
    let ghost all = entries(s@);
    let mut i: usize = 0;
    while i < s.len()
        invariant
            i <= s@.len(),
            all == entries(s@),
            first_dup(all.take(i as int)) == -1,
        decreases s@.len() - i,
    {
        let ghost pre = all.take(i + 1);
        assert(pre.drop_last() =~= all.take(i as int));
        let mut j: usize = 0;
        while j < i
            invariant
                j <= i,
                i < s@.len(),
                all == entries(s@),
                pre == all.take(i + 1),
                first_dup(all.take(i as int)) == -1,
                forall|k: int| 0 <= k < j ==> !(all[k].0 == all[i as int].0 && all[k].1 == all[i as int].1),
            decreases i - j,
        {
            if s[j].kind == s[i].kind && s[j].id == s[i].id {
                assert(pre[j as int] == all[j as int]);
                assert(has_earlier(pre, i as int));
                proof {
                    assert(pre.drop_last() =~= all.take(i as int));
                    assert(first_dup(pre) == i);
                    lemma_first_dup_prefix(all, i + 1);
                }
                return Some(i);
            }
            j = j + 1;
        }
        assert forall|k: int| 0 <= k < i implies !(pre[k].0 == pre[i as int].0 && pre[k].1
            == pre[i as int].1) by {
            assert(pre[k] == all[k]);
        }
        assert(!has_earlier(pre, i as int));
        i = i + 1;
    }
    assert(all.take(i as int) =~= all);
    None
}

impl BuildStack {
    pub fn build(self) -> (r: Stack)
        ensures
            is_empty_graph(r@),
    {
        let r = Stack {
            providers: Vec::new(),
            variables: Vec::new(),
            datasources: Vec::new(),
            resources: Vec::new(),
            outputs: Vec::new(),
            shared: StackShared::new(),
        };
        assert(r@.providers =~= Seq::<ProviderView>::empty());
        assert(r@.variables =~= Seq::<(Seq<char>, Seq<char>)>::empty());
        assert(r@.datasources =~= Seq::<DatasourceView>::empty());
        assert(r@.resources =~= Seq::<ResourceView>::empty());
        assert(r@.outputs =~= Seq::<(Seq<char>, Seq<char>)>::empty());
        r
    }
}

fn keyed_texts(v: &Vec<(String, String)>) -> (r: Vec<EntryText>)
    ensures
        entries(r@) == keyed_entries(pairs(v@)),
{
    let mut r: Vec<EntryText> = Vec::new();
    let mut i: usize = 0;
    while i < v.len()
        invariant
            i <= v@.len(),
            r@.len() == i,
            forall|k: int| 0 <= k < i ==> (#[trigger] r@[k])@ == keyed_entries(pairs(v@))[k],
        decreases v@.len() - i,
    {
        r.push(EntryText { kind: String::new(), id: v[i].0.clone(), value: v[i].1.clone() });
        i = i + 1;
    }
    assert(entries(r@) =~= keyed_entries(pairs(v@)));
    r
}

impl Stack {
    fn provider_texts(&self, types: bool) -> (r: Vec<EntryText>)
        ensures
            types ==> entries(r@) == provider_type_entries(self@),
            !types ==> entries(r@) == provider_entries(self@),
    {
        let mut r: Vec<EntryText> = Vec::new();
        let mut i: usize = 0;
        while i < self.providers.len()
            invariant
                i <= self.providers@.len(),
                r@.len() == i,
                forall|k: int|
                    0 <= k < i ==> (#[trigger] r@[k])@ == (if types {
                        provider_type_entries(self@)[k]
                    } else {
                        provider_entries(self@)[k]
                    }),
            decreases self.providers@.len() - i,
        {
            let p = &self.providers[i];
            let value = if types {
                p.render_type()
            } else {
                p.render()
            };
            r.push(EntryText { kind: p.kind_name.clone(), id: String::new(), value });
            i = i + 1;
        }
        if types {
            assert(entries(r@) =~= provider_type_entries(self@));
        } else {
            assert(entries(r@) =~= provider_entries(self@));
        }
        r
    }

    fn datasource_texts(&self) -> (r: Vec<EntryText>)
        ensures
            entries(r@) == datasource_entries(self@),
    {
        let mut r: Vec<EntryText> = Vec::new();
        let mut i: usize = 0;
        while i < self.datasources.len()
            invariant
                i <= self.datasources@.len(),
                r@.len() == i,
                forall|k: int| 0 <= k < i ==> (#[trigger] r@[k])@ == datasource_entries(self@)[k],
            decreases self.datasources@.len() - i,
        {
            let d = &self.datasources[i];
            r.push(EntryText { kind: d.kind_name.clone(), id: d.tf_id.clone(), value: d.render() });
            i = i + 1;
        }
        assert(entries(r@) =~= datasource_entries(self@));
        r
    }

    fn resource_texts(&self) -> (r: Vec<EntryText>)
        ensures
            entries(r@) == resource_entries(self@),
    {
        let mut r: Vec<EntryText> = Vec::new();
        let mut i: usize = 0;
        while i < self.resources.len()
            invariant
                i <= self.resources@.len(),
                r@.len() == i,
                forall|k: int| 0 <= k < i ==> (#[trigger] r@[k])@ == resource_entries(self@)[k],
            decreases self.resources@.len() - i,
        {
            let d = &self.resources[i];
            r.push(EntryText { kind: d.kind_name.clone(), id: d.tf_id.clone(), value: d.render() });
            i = i + 1;
        }
        assert(entries(r@) =~= resource_entries(self@));
        r
    }

    fn terraform_section(&self, state_path: &str) -> (r: String)
        ensures
            r@ == terraform_text(state_path@, self@),
    {
        let p = quote_json(state_path);
        let mut m1: Vec<String> = Vec::new();
        m1.push(member_text("path", p.as_str()));
        let o1 = object_text(&m1);
        let mut m2: Vec<String> = Vec::new();
        m2.push(member_text("local", o1.as_str()));
        let o2 = object_text(&m2);
        let pt = sort_entry_texts(self.provider_texts(true));
        let req = grouped_text(&pt, 2);
        let mut m3: Vec<String> = Vec::new();
        m3.push(member_text("backend", o2.as_str()));
        m3.push(member_text("required_providers", req.as_str()));
        assert(strs(m1@) =~= seq![member("path"@, json_quoted(state_path@))]);
        assert(strs(m2@) =~= seq![member("local"@, o1@)]);
        assert(strs(m3@) =~= seq![member("backend"@, o2@), member("required_providers"@, req@)]);
        object_text(&m3)
    }

    /// Writes out the graph as the document that the provisioning engine reads,
    /// with `state_path` as the place of its local state.
    pub fn serialize(&self, state_path: &str) -> (r: Result<String, StackError>)
        ensures
            result_view(r) == serialize_result(self@, state_path@),
    {
        let v = keyed_texts(&self.variables);
        let d = self.datasource_texts();
        let rs = self.resource_texts();
        let o = keyed_texts(&self.outputs);
        proof {
            lemma_first_dup_range(entries(v@));
            lemma_first_dup_range(entries(d@));
            lemma_first_dup_range(entries(rs@));
            lemma_first_dup_range(entries(o@));
        }
        match first_duplicate(&v) {
            Some(i) => {
                return Err(
                    StackError::Duplicate(ComponentType::Variable, v[i].kind.clone(), v[i].id.clone()),
                );
            },
            None => {},
        }
        match first_duplicate(&d) {
            Some(i) => {
                return Err(
                    StackError::Duplicate(ComponentType::Datasource, d[i].kind.clone(), d[i].id.clone()),
                );
            },
            None => {},
        }
        match first_duplicate(&rs) {
            Some(i) => {
                return Err(
                    StackError::Duplicate(ComponentType::Resource, rs[i].kind.clone(), rs[i].id.clone()),
                );
            },
            None => {},
        }
        match first_duplicate(&o) {
            Some(i) => {
                return Err(
                    StackError::Duplicate(ComponentType::Output, o[i].kind.clone(), o[i].id.clone()),
                );
            },
            None => {},
        }
        let ghost sv = self@;
        let empty = String::new();
        let mut secs: Vec<String> = Vec::new();
        if self.datasources.len() > 0 {
            let sd = sort_entry_texts(d);
            let t = grouped_text(&sd, 0);
            secs.push(member_text("data", t.as_str()));
        }
        let ghost s1 = strs(secs@);
        assert(s1 =~= section(
            sv.datasources.len() > 0,
            "data"@,
            two_level(sort_entries(datasource_entries(sv))),
        ));
        if self.outputs.len() > 0 {
            let so = sort_entry_texts(o);
            let m = members_for(&so, &empty);
            let t = object_text(&m);
            secs.push(member_text("output", t.as_str()));
        }
        let ghost s2 = strs(secs@);
        assert(s2 =~= s1 + section(
            sv.outputs.len() > 0,
            "output"@,
            object(members_of(sort_entries(keyed_entries(sv.outputs)), Seq::<char>::empty())),
        ));
        if self.providers.len() > 0 {
            let sp = sort_entry_texts(self.provider_texts(false));
            let t = grouped_text(&sp, 1);
            secs.push(member_text("provider", t.as_str()));
        }
        let ghost s3 = strs(secs@);
        assert(s3 =~= s2 + section(
            sv.providers.len() > 0,
            "provider"@,
            listed(sort_entries(provider_entries(sv))),
        ));
        if self.resources.len() > 0 {
            let sr = sort_entry_texts(rs);
            let t = grouped_text(&sr, 0);
            secs.push(member_text("resource", t.as_str()));
        }
        let ghost s4 = strs(secs@);
        assert(s4 =~= s3 + section(
            sv.resources.len() > 0,
            "resource"@,
            two_level(sort_entries(resource_entries(sv))),
        ));
        let tf = self.terraform_section(state_path);
        secs.push(member_text("terraform", tf.as_str()));
        let ghost s5 = strs(secs@);
        assert(s5 =~= s4 + seq![member("terraform"@, terraform_text(state_path@, sv))]);
        if self.variables.len() > 0 {
            let sv2 = sort_entry_texts(v);
            let m = members_for(&sv2, &empty);
            let t = object_text(&m);
            secs.push(member_text("variable", t.as_str()));
        }
        assert(strs(secs@) =~= s5 + section(
            sv.variables.len() > 0,
            "variable"@,
            object(members_of(sort_entries(keyed_entries(sv.variables)), Seq::<char>::empty())),
        ));
        let text = object_text(&secs);
        assert(text@ == document(sv, state_path@));
        Ok(self.shared.resolve(text.as_str()))
    }
}

impl Stack {
    /// An expression that evaluates to the literal `v`.
    pub fn expr_lit<T: PrimType>(&self, v: T) -> (r: PrimExpr<T>)
        ensures
            r.text() == v.expr_text(),
    {
        PrimExpr::new(v.to_expr_raw())
    }

    /// An expression from text that is already valid expression syntax.
    pub fn expr<T>(&self, e: &str) -> (r: PrimExpr<T>)
        ensures
            r.text() == e@,
    {
        PrimExpr::new(String::from_str(e))
    }

    /// Starts a call of the function `name`.
    pub fn func(&self, name: &str) -> (r: Func)
        ensures
            r.wf(),
            r.name() == name@,
            r.args() == Seq::<Seq<char>>::empty(),
    {
        Func::new(name)
    }

    /// Adds a provider instance; the result is its position.
    pub fn add_provider(&mut self, v: ProviderData) -> (h: usize)
        ensures
            final(self)@ == (StackView { providers: old(self)@.providers.push(v@), ..old(self)@ }),
            h == old(self)@.providers.len(),
    {
        let h = self.providers.len();
        self.providers.push(v);
        assert(self@.providers =~= old(self)@.providers.push(v@));
        h
    }

    /// Adds a datasource; the result is its position.
    pub fn add_datasource(&mut self, v: DatasourceData) -> (h: usize)
        ensures
            final(self)@ == (StackView { datasources: old(self)@.datasources.push(v@), ..old(self)@ }),
            h == old(self)@.datasources.len(),
    {
        let h = self.datasources.len();
        self.datasources.push(v);
        assert(self@.datasources =~= old(self)@.datasources.push(v@));
        h
    }

    /// Adds a resource; the result is its position.
    pub fn add_resource(&mut self, v: ResourceData) -> (h: usize)
        ensures
            final(self)@ == (StackView { resources: old(self)@.resources.push(v@), ..old(self)@ }),
            h == old(self)@.resources.len(),
    {
        let h = self.resources.len();
        self.resources.push(v);
        assert(self@.resources =~= old(self)@.resources.push(v@));
        h
    }

    /// Adds the variable `tf_id`, declared by the JSON text `value`.
    pub fn add_variable(&mut self, tf_id: &str, value: String)
        ensures
            final(self)@ == (StackView {
                variables: old(self)@.variables.push((tf_id@, value@)),
                ..old(self)@
            }),
    {
        self.variables.push((String::from_str(tf_id), value));
        assert(self@.variables =~= old(self)@.variables.push((tf_id@, value@)));
    }

    /// Adds the output `tf_id`, declared by the JSON text `value`.
    pub fn add_output(&mut self, tf_id: &str, value: String)
        ensures
            final(self)@ == (StackView {
                outputs: old(self)@.outputs.push((tf_id@, value@)),
                ..old(self)@
            }),
    {
        self.outputs.push((String::from_str(tf_id), value));
        assert(self@.outputs =~= old(self)@.outputs.push((tf_id@, value@)));
    }
}

/// Writing out the same graph twice gives the same bytes, or the same error.
pub proof fn serialize_is_idempotent(
    s: StackView,
    state_path: Seq<char>,
    r1: Result<String, StackError>,
    r2: Result<String, StackError>,
)
    requires
        result_view(r1) == serialize_result(s, state_path),
        result_view(r2) == serialize_result(s, state_path),
    ensures
        result_view(r1) == result_view(r2),
        r1 is Ok ==> r2 is Ok && r1->Ok_0@ == r2->Ok_0@,
{
}

proof fn lemma_resolve_empty_ledger(t: Seq<char>, l: Seq<(Seq<char>, Seq<char>)>)
    requires
        l.len() == 0,
    ensures
        resolve(t, l) == t,
    decreases t.len(),
{
    if t.len() > 0 {
        lemma_resolve_empty_ledger(t.skip(1), l);
        assert(seq![t[0]] + t.skip(1) =~= t);
    }
}

/// A graph with no entity writes out as a document that holds the engine's
/// section alone, with no provider required.
pub proof fn empty_graph_document(s: StackView, state_path: Seq<char>)
    requires
        is_empty_graph(s),
    ensures
        serialize_result(s, state_path) == Result::<Seq<char>, (ComponentType, Seq<char>, Seq<char>)>::Ok(
            object(
                seq![
                    member(
                        "terraform"@,
                        object(
                            seq![
                                member(
                                    "backend"@,
                                    object(seq![member("local"@, object(seq![member("path"@, json_quoted(state_path))]))]),
                                ),
                                member("required_providers"@, object(seq![])),
                            ],
                        ),
                    ),
                ],
            ),
        ),
{
    assert(keyed_entries(s.variables) =~= Seq::<Entry>::empty());
    assert(keyed_entries(s.outputs) =~= Seq::<Entry>::empty());
    assert(datasource_entries(s) =~= Seq::<Entry>::empty());
    assert(resource_entries(s) =~= Seq::<Entry>::empty());
    assert(provider_type_entries(s) =~= Seq::<Entry>::empty());
    assert(types_of(sort_entries(provider_type_entries(s))) =~= Seq::<Seq<char>>::empty());
    assert(types_of(sort_entries(provider_type_entries(s))).map_values(
        |t: Seq<char>| member(t, values_of(sort_entries(provider_type_entries(s)), t)[0]),
    ) =~= Seq::<Seq<char>>::empty());
    let d = document(s, state_path);
    assert(section(false, "data"@, two_level(sort_entries(datasource_entries(s)))) =~= Seq::<Seq<char>>::empty());
    assert(document(s, state_path) == object(seq![member("terraform"@, terraform_text(state_path, s))])) by {
        let e = Seq::<Seq<char>>::empty();
        assert(e + e + e + e + seq![member("terraform"@, terraform_text(state_path, s))] + e =~= seq![
            member("terraform"@, terraform_text(state_path, s)),
        ]);
    }
    lemma_resolve_empty_ledger(d, s.ledger);
}

} // verus!
