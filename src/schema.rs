use vstd::prelude::*;
use crate::doc::strs;
use crate::generate::copy_strings;

verus! {

/// Whether an attribute must be given, may be given, or is only computed.
#[derive(Clone, Copy, PartialEq, Eq, Structural)]
pub enum Presence {
    Required,
    Optional,
    Computed,
}

/// The type of an attribute, as the schema writes it.
pub enum AttrType {
    Bool,
    Number,
    Str,
    ListOf(Box<AttrType>),
    SetOf(Box<AttrType>),
    MapOf(Box<AttrType>),
    Unsupported(String),
}

pub enum SchemaKind {
    Attr(AttrType),
    /// A nested block of attributes; `max_items` 1 makes it a single record, any
    /// other value a list (or, with `set`, a set) of them.
    Block { children: Vec<SchemaNode>, max_items: u64, set: bool },
}

/// One attribute or nested block of a schema.
pub struct SchemaNode {
    pub name: String,
    pub presence: Presence,
    pub kind: SchemaKind,
}

#[derive(Clone, Copy, PartialEq, Eq, Structural)]
pub enum Coll {
    ListOf,
    SetOf,
    MapOf,
}

/// What sits inside the collections of a field: a primitive, or the record
/// type generated for the nested block at the field's path.
#[derive(Clone, Copy, PartialEq, Eq, Structural)]
pub enum Base {
    Bool,
    Number,
    Str,
    Record,
}

/// How a builder takes a field.
#[derive(Clone, Copy, PartialEq, Eq, Structural)]
pub enum Input {
    /// An input the builder cannot do without.
    Required,
    /// Left out of the builder; set afterwards through a mutator.
    Defaulted,
    /// Never an input: only read back through a reference.
    ReadOnly,
}

/// The shape of one generated field: where it stands (the names from the
/// entity down to it), what it holds, from outermost collection inward, and how
/// a builder takes it.
pub struct FieldDescriptor {
    pub path: Vec<String>,
    pub base: Base,
    pub wrappers: Vec<Coll>,
    pub input: Input,
}

pub struct FieldView {
    pub path: Seq<Seq<char>>,
    pub base: Base,
    pub wrappers: Seq<Coll>,
    pub input: Input,
}

impl View for FieldDescriptor {
    type V = FieldView;

    open spec fn view(&self) -> FieldView {
        FieldView { path: strs(self.path@), base: self.base, wrappers: self.wrappers@, input: self.input }
    }
}

pub open spec fn fields_view(v: Seq<FieldDescriptor>) -> Seq<FieldView> {
    v.map_values(|f: FieldDescriptor| f@)
}

pub open spec fn input_of(p: Presence) -> Input {
    match p {
        Presence::Required => Input::Required,
        Presence::Optional => Input::Defaulted,
        Presence::Computed => Input::ReadOnly,
    }
}

/// The primitive and the collections around it, or none for a type that is
/// not supported.
pub open spec fn attr_shape(t: AttrType) -> Option<(Base, Seq<Coll>)>
    decreases t,
{
    match t {
        AttrType::Bool => Some((Base::Bool, seq![])),
        AttrType::Number => Some((Base::Number, seq![])),
        AttrType::Str => Some((Base::Str, seq![])),
        AttrType::ListOf(i) => match attr_shape(*i) {
            Some(s) => Some((s.0, seq![Coll::ListOf] + s.1)),
            None => None,
        },
        AttrType::SetOf(i) => match attr_shape(*i) {
            Some(s) => Some((s.0, seq![Coll::SetOf] + s.1)),
            None => None,
        },
        AttrType::MapOf(i) => match attr_shape(*i) {
            Some(s) => Some((s.0, seq![Coll::MapOf] + s.1)),
            None => None,
        },
        AttrType::Unsupported(_) => None,
    }
}

pub open spec fn block_wrappers(max_items: u64, set: bool) -> Seq<Coll> {
    if max_items == 1 {
        seq![]
    } else if set {
        seq![Coll::SetOf]
    } else {
        seq![Coll::ListOf]
    }
}

/// The fields that a node gives under `path`: its own, then those of its
/// nested block, depth first; or the path of the first node whose type is not
/// supported.
pub open spec fn map_node(n: SchemaNode, path: Seq<Seq<char>>) -> Result<Seq<FieldView>, Seq<Seq<char>>>
    decreases n, 0int,
{
    let here = path.push(n.name@);
    match n.kind {
        SchemaKind::Attr(t) => match attr_shape(t) {
            Some(s) => Ok(seq![FieldView { path: here, base: s.0, wrappers: s.1, input: input_of(n.presence) }]),
            None => Err(here),
        },
        SchemaKind::Block { children, max_items, set } => match map_nodes(children, here, children.len() as int) {
            Ok(fs) => Ok(seq![FieldView {
                path: here,
                base: Base::Record,
                wrappers: block_wrappers(max_items, set),
                input: input_of(n.presence),
            }] + fs),
            Err(e) => Err(e),
        },
    }
}

/// The fields of the first `k` nodes of `ns`, in order.
pub open spec fn map_nodes(ns: Vec<SchemaNode>, path: Seq<Seq<char>>, k: int) -> Result<Seq<FieldView>, Seq<Seq<char>>>
    decreases ns, k,
{
    if k <= 0 || k > ns.len() {
        Ok(seq![])
    } else {
        match map_nodes(ns, path, k - 1) {
            Err(e) => Err(e),
            Ok(fs) => match map_node(ns[k - 1], path) {
                Ok(g) => Ok(fs + g),
                Err(e) => Err(e),
            },
        }
    }
}

pub open spec fn map_view(r: Result<Vec<FieldDescriptor>, Vec<String>>) -> Result<Seq<FieldView>, Seq<Seq<char>>> {
    match r {
        Ok(v) => Ok(fields_view(v@)),
        Err(p) => Err(strs(p@)),
    }
}

fn input_for(p: Presence) -> (r: Input)
    ensures
        r == input_of(p),
{
    match p {
        Presence::Required => Input::Required,
        Presence::Optional => Input::Defaulted,
        Presence::Computed => Input::ReadOnly,
    }
}

fn wrapped(c: Coll, w: Vec<Coll>) -> (r: Vec<Coll>)
    ensures
        r@ == seq![c] + w@,
{
    let mut r: Vec<Coll> = Vec::new();
    r.push(c);
    let mut w = w;
    let ghost w0 = w@;
    r.append(&mut w);
    assert(r@ =~= seq![c] + w0);
    r
}

fn shape_of(t: &AttrType) -> (r: Option<(Base, Vec<Coll>)>)
    ensures
        match r {
            Some(x) => attr_shape(*t) == Some((x.0, x.1@)),
            None => attr_shape(*t) is None,
        },
    decreases t,
{
    match t {
        AttrType::Bool => Some((Base::Bool, Vec::new())),
        AttrType::Number => Some((Base::Number, Vec::new())),
        AttrType::Str => Some((Base::Str, Vec::new())),
        AttrType::ListOf(i) => match shape_of(i) {
            Some(x) => Some((x.0, wrapped(Coll::ListOf, x.1))),
            None => None,
        },
        AttrType::SetOf(i) => match shape_of(i) {
            Some(x) => Some((x.0, wrapped(Coll::SetOf, x.1))),
            None => None,
        },
        AttrType::MapOf(i) => match shape_of(i) {
            Some(x) => Some((x.0, wrapped(Coll::MapOf, x.1))),
            None => None,
        },
        AttrType::Unsupported(_) => None,
    }
}

fn block_colls(max_items: u64, set: bool) -> (r: Vec<Coll>)
    ensures
        r@ == block_wrappers(max_items, set),
{
    let mut r: Vec<Coll> = Vec::new();
    if max_items == 1 {
    } else if set {
        r.push(Coll::SetOf);
    } else {
        r.push(Coll::ListOf);
    }
    assert(r@ =~= block_wrappers(max_items, set));
    r
}

proof fn lemma_map_nodes_err(ns: Vec<SchemaNode>, path: Seq<Seq<char>>, k: int, m: int)
    requires
        0 < k <= m <= ns.len(),
        map_nodes(ns, path, k) is Err,
    ensures
        map_nodes(ns, path, m) == map_nodes(ns, path, k),
    decreases m - k,
{
    if m > k {
        lemma_map_nodes_err(ns, path, k, m - 1);
    }
}

/// Maps a schema node found under `path` to the fields that it gives.
pub fn map_field(n: &SchemaNode, path: &Vec<String>) -> (r: Result<Vec<FieldDescriptor>, Vec<String>>)
    ensures
        map_view(r) == map_node(*n, strs(path@)),
    decreases n,
{
    let mut here = copy_strings(path);
    let ghost p0 = strs(here@);
    here.push(n.name.clone());
    assert(strs(here@) =~= p0.push(n.name@));
    match &n.kind {
        SchemaKind::Attr(t) => match shape_of(t) {
            Some(x) => {
                let mut out: Vec<FieldDescriptor> = Vec::new();
                out.push(FieldDescriptor { path: here, base: x.0, wrappers: x.1, input: input_for(n.presence) });
                assert(fields_view(out@) =~= seq![FieldView {
                    path: strs(path@).push(n.name@),
                    base: x.0,
                    wrappers: x.1@,
                    input: input_of(n.presence),
                }]);
                Ok(out)
            },
            None => Err(here),
        },
        SchemaKind::Block { children, max_items, set } => {
            let ghost hv = strs(here@);
            let mut out: Vec<FieldDescriptor> = Vec::new();
            out.push(FieldDescriptor {
                path: copy_strings(&here),
                base: Base::Record,
                wrappers: block_colls(*max_items, *set),
                input: input_for(n.presence),
            });
            let ghost own = fields_view(out@);
            assert(own =~= seq![FieldView {
                path: hv,
                base: Base::Record,
                wrappers: block_wrappers(*max_items, *set),
                input: input_of(n.presence),
            }]);
            let mut i: usize = 0;
            assert(map_nodes(*children, hv, 0) == Result::<Seq<FieldView>, Seq<Seq<char>>>::Ok(seq![]));
            assert(own + seq![] =~= own);
            while i < children.len()
                invariant
                    i <= children@.len(),
                    hv == strs(here@),
                    hv == strs(path@).push(n.name@),
                    n.kind is Block,
                    n.kind->Block_children == *children,
                    map_nodes(*children, hv, i as int) is Ok,
                    fields_view(out@) == own + map_nodes(*children, hv, i as int)->Ok_0,
                decreases children@.len() - i,
            {
                proof {
                    assert(decreases_to!(*n => n.kind));
                    assert(decreases_to!(n.kind => n.kind->Block_children));
                    assert(decreases_to!(*children => children@));
                    assert(decreases_to!(children@ => children@[i as int]));
                    assert(decreases_to!(*n => children@[i as int]));
                }
                match map_field(&children[i], &here) {
                    Ok(g) => {
                        let ghost before = fields_view(out@);
                        let mut g = g;
                        let ghost gv = fields_view(g@);
                        out.append(&mut g);
                        assert(fields_view(out@) =~= before + gv);
                        i = i + 1;
                        assert(own + map_nodes(*children, hv, i as int)->Ok_0 =~= before + gv);
                    },
                    Err(e) => {
                        proof {
                            assert(map_nodes(*children, hv, i + 1) == Result::<
                                Seq<FieldView>,
                                Seq<Seq<char>>,
                            >::Err(strs(e@)));
                            lemma_map_nodes_err(*children, hv, i + 1, children@.len() as int);
                        }
                        return Err(e);
                    },
                }
            }
            Ok(out)
        },
    }
}

/// Whether the field stands directly under the entity or record at `owner`.
pub open spec fn child_of(f: FieldView, owner: Seq<Seq<char>>) -> bool {
    f.path.len() == owner.len() + 1 && f.path.subrange(0, owner.len() as int) == owner
}

/// Which fields a part of the synthesis takes: 0 the builder's inputs, 1 the
/// fields set through mutators, 2 the fields read through references.
pub open spec fn wanted(f: FieldView, owner: Seq<Seq<char>>, which: int) -> bool {
    child_of(f, owner) && (which == 2 || (which == 0 && f.input == Input::Required) || (which == 1
        && f.input == Input::Defaulted))
}

/// The positions, in order, of the fields that a part of the synthesis takes.
pub open spec fn positions(fs: Seq<FieldView>, owner: Seq<Seq<char>>, which: int) -> Seq<int>
    decreases fs.len(),
{
    if fs.len() == 0 {
        seq![]
    } else if wanted(fs.last(), owner, which) {
        positions(fs.drop_last(), owner, which).push(fs.len() - 1)
    } else {
        positions(fs.drop_last(), owner, which)
    }
}

/// The parts of a generated entity or record, as positions in its fields: the
/// builder's inputs, the fields set afterwards through mutators, and the fields
/// read through references.
pub struct Synthesis {
    pub builder_inputs: Vec<usize>,
    pub mutators: Vec<usize>,
    pub references: Vec<usize>,
}

pub open spec fn ints(v: Seq<usize>) -> Seq<int> {
    v.map_values(|k: usize| k as int)
}

fn is_child_of(f: &FieldDescriptor, owner: &Vec<String>) -> (r: bool)
    ensures
        r == child_of(f@, strs(owner@)),
{
    if f.path.len() == 0 || f.path.len() - 1 != owner.len() {
        return false;
    }
    let mut i: usize = 0;
    while i < owner.len()
        invariant
            i <= owner@.len(),
            f.path@.len() == owner@.len() + 1,
            forall|k: int| 0 <= k < i ==> f.path@[k]@ == owner@[k]@,
        decreases owner@.len() - i,
    {
        if f.path[i] != owner[i] {
            assert(f@.path.subrange(0, owner@.len() as int)[i as int] != strs(owner@)[i as int]);
            return false;
        }
        i = i + 1;
    }
    assert(f@.path.subrange(0, owner@.len() as int) =~= strs(owner@));
    true
}

fn positions_of(fields: &Vec<FieldDescriptor>, owner: &Vec<String>, which: u8) -> (r: Vec<usize>)
    requires
        which <= 2,
    ensures
        ints(r@) == positions(fields_view(fields@), strs(owner@), which as int),
{
    let ghost fs = fields_view(fields@);
    let ghost o = strs(owner@);
    let mut r: Vec<usize> = Vec::new();
    let mut i: usize = 0;
    assert(ints(r@) =~= positions(fs.take(0), o, which as int));
    while i < fields.len()
        invariant
            i <= fields@.len(),
            fs == fields_view(fields@),
            o == strs(owner@),
            which <= 2,
            ints(r@) == positions(fs.take(i as int), o, which as int),
        decreases fields@.len() - i,
    {
        let ghost t1 = fs.take(i + 1);
        assert(t1.drop_last() =~= fs.take(i as int));
        assert(t1.last() == fields@[i as int]@);
        let f = &fields[i];
        let w = is_child_of(f, owner) && (which == 2 || (which == 0 && f.input == Input::Required)
            || (which == 1 && f.input == Input::Defaulted));
        if w {
            let ghost before = ints(r@);
            r.push(i);
            assert(ints(r@) =~= before.push(i as int));
        }
        i = i + 1;
    }
    assert(fs.take(i as int) =~= fs);
    r
}

/// The parts of the entity or record at `owner`, from the fields that the type
/// mapper gave.
pub fn synthesize(fields: &Vec<FieldDescriptor>, owner: &Vec<String>) -> (r: Synthesis)
    ensures
        ints(r.builder_inputs@) == positions(fields_view(fields@), strs(owner@), 0),
        ints(r.mutators@) == positions(fields_view(fields@), strs(owner@), 1),
        ints(r.references@) == positions(fields_view(fields@), strs(owner@), 2),
{
    Synthesis {
        builder_inputs: positions_of(fields, owner, 0),
        mutators: positions_of(fields, owner, 1),
        references: positions_of(fields, owner, 2),
    }
}

/// Mapping is deterministic: two mappings of one node under one path give the
/// same fields, or fail at the same path.
pub proof fn map_is_deterministic(
    n: SchemaNode,
    path: Seq<Seq<char>>,
    r1: Result<Vec<FieldDescriptor>, Vec<String>>,
    r2: Result<Vec<FieldDescriptor>, Vec<String>>,
)
    requires
        map_view(r1) == map_node(n, path),
        map_view(r2) == map_node(n, path),
    ensures
        map_view(r1) == map_view(r2),
{
}

/// Every builder input is a required field, every mutator field an optional
/// one, and every required field is a builder input: a required field is never
/// left to a mutator, and an optional or computed field is never demanded by a
/// builder.
pub proof fn builder_inputs_are_exactly_required(fs: Seq<FieldView>, owner: Seq<Seq<char>>)
    ensures
        forall|k: int| #[trigger] positions(fs, owner, 0).contains(k) ==> 0 <= k < fs.len()
            && child_of(fs[k], owner) && fs[k].input == Input::Required,
        forall|k: int| #[trigger] positions(fs, owner, 1).contains(k) ==> 0 <= k < fs.len()
            && child_of(fs[k], owner) && fs[k].input == Input::Defaulted,
        forall|k: int|
            0 <= k < fs.len() && child_of(fs[k], owner) && fs[k].input == Input::Required
                ==> #[trigger] positions(fs, owner, 0).contains(k),
    decreases fs.len(),
{
    if fs.len() > 0 {
        let d = fs.drop_last();
        builder_inputs_are_exactly_required(d, owner);
        let last = fs.len() - 1;
        assert forall|w: int| 0 <= w <= 1 && #[trigger] positions(fs, owner, w).contains(last) implies
            child_of(fs[last], owner) && (if w == 0 {
                fs[last].input == Input::Required
            } else {
                fs[last].input == Input::Defaulted
            }) by {
            if !wanted(fs.last(), owner, w) {
                let j = choose|j: int| 0 <= j < positions(d, owner, w).len() && positions(d, owner, w)[j] == last;
                assert(positions(d, owner, w).contains(last));
            }
        }
        assert forall|k: int| #[trigger] positions(fs, owner, 0).contains(k) implies 0 <= k < fs.len()
            && child_of(fs[k], owner) && fs[k].input == Input::Required by {
            if k != last {
                let j = choose|j: int| 0 <= j < positions(fs, owner, 0).len() && positions(fs, owner, 0)[j] == k;
                if wanted(fs.last(), owner, 0) {
                    assert(j < positions(d, owner, 0).len());
                    assert(positions(d, owner, 0)[j] == k);
                }
                assert(positions(d, owner, 0).contains(k));
                assert(fs[k] == d[k]);
            }
        }
        assert forall|k: int| #[trigger] positions(fs, owner, 1).contains(k) implies 0 <= k < fs.len()
            && child_of(fs[k], owner) && fs[k].input == Input::Defaulted by {
            if k != last {
                let j = choose|j: int| 0 <= j < positions(fs, owner, 1).len() && positions(fs, owner, 1)[j] == k;
                if wanted(fs.last(), owner, 1) {
                    assert(j < positions(d, owner, 1).len());
                    assert(positions(d, owner, 1)[j] == k);
                }
                assert(positions(d, owner, 1).contains(k));
                assert(fs[k] == d[k]);
            }
        }
        assert forall|k: int|
            0 <= k < fs.len() && child_of(fs[k], owner) && fs[k].input == Input::Required
                implies #[trigger] positions(fs, owner, 0).contains(k) by {
            if k == last {
                assert(positions(fs, owner, 0).last() == last);
            } else {
                assert(fs[k] == d[k]);
                assert(positions(d, owner, 0).contains(k));
                let j = choose|j: int| 0 <= j < positions(d, owner, 0).len() && positions(d, owner, 0)[j] == k;
                assert(positions(fs, owner, 0)[j] == k);
            }
        }
    }
}

/// The names that an entity's own settings take.
pub open spec fn reserved(name: Seq<char>) -> bool {
    name == "depends_on"@ || name == "provider"@ || name == "lifecycle"@ || name == "for_each"@
}

/// The position of the first field directly under `owner` whose name an
/// entity's own settings take, or -1.
pub open spec fn first_reserved(fs: Seq<FieldView>, owner: Seq<Seq<char>>) -> int
    decreases fs.len(),
{
    if fs.len() == 0 {
        -1
    } else {
        let d = first_reserved(fs.drop_last(), owner);
        if d >= 0 {
            d
        } else if child_of(fs.last(), owner) && reserved(fs.last().path.last()) {
            fs.len() - 1
        } else {
            -1
        }
    }
}

fn is_reserved(name: &String) -> (r: bool)
    ensures
        r == reserved(name@),
{
    proof {
        reveal_strlit("depends_on");
        reveal_strlit("provider");
        reveal_strlit("lifecycle");
        reveal_strlit("for_each");
    }
    *name == String::from_str("depends_on") || *name == String::from_str("provider") || *name
        == String::from_str("lifecycle") || *name == String::from_str("for_each")
}

proof fn lemma_first_reserved_prefix(fs: Seq<FieldView>, owner: Seq<Seq<char>>, n: int)
    requires
        0 <= n <= fs.len(),
        first_reserved(fs.take(n), owner) >= 0,
    ensures
        first_reserved(fs, owner) == first_reserved(fs.take(n), owner),
    decreases fs.len(),
{
    if n == fs.len() {
        assert(fs.take(n) =~= fs);
    } else {
        assert(fs.drop_last().take(n) =~= fs.take(n));
        lemma_first_reserved_prefix(fs.drop_last(), owner, n);
    }
}

/// The path of the first field directly under the entity at `owner` that
/// takes the name of one of the entity's own settings.
pub fn reserved_clash(fields: &Vec<FieldDescriptor>, owner: &Vec<String>) -> (r: Option<Vec<String>>)
    ensures
        match r {
            Some(p) => first_reserved(fields_view(fields@), strs(owner@)) >= 0 && strs(p@)
                == fields_view(fields@)[first_reserved(fields_view(fields@), strs(owner@))].path,
            None => first_reserved(fields_view(fields@), strs(owner@)) == -1,
        },
{
    let ghost fs = fields_view(fields@);
    let ghost o = strs(owner@);
    let mut i: usize = 0;
    while i < fields.len()
        invariant
            i <= fields@.len(),
            fs == fields_view(fields@),
            o == strs(owner@),
            first_reserved(fs.take(i as int), o) == -1,
        decreases fields@.len() - i,
    {
        let ghost pre = fs.take(i + 1);
        assert(pre.drop_last() =~= fs.take(i as int));
        let f = &fields[i];
        if is_child_of(f, owner) {
            let n = f.path.len();
            if is_reserved(&f.path[n - 1]) {
                proof {
                    assert(first_reserved(pre, o) == i);
                    lemma_first_reserved_prefix(fs, o, i + 1);
                }
                return Some(copy_strings(&f.path));
            }
        }
        i = i + 1;
    }
    assert(fs.take(i as int) =~= fs);
    None
}

} // verus!
