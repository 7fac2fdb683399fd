use vstd::prelude::*;
use crate::text::{chars_of, join, json_quoted, push_char, push_joined, quote_json};

verus! {

/// `"key":value`, the key written as a JSON string.
pub open spec fn member(k: Seq<char>, v: Seq<char>) -> Seq<char> {
    json_quoted(k) + ":"@ + v
}

/// A JSON object of the given members, in order.
pub open spec fn object(members: Seq<Seq<char>>) -> Seq<char> {
    "{"@ + join(members, ","@) + "}"@
}

/// A JSON array of the given items, in order.
pub open spec fn array(items: Seq<Seq<char>>) -> Seq<char> {
    "["@ + join(items, ","@) + "]"@
}

/// The views of a sequence of strings.
pub open spec fn strs(v: Seq<String>) -> Seq<Seq<char>> {
    v.map_values(|s: String| s@)
}

/// The JSON strings of a sequence of texts.
pub open spec fn json_strs(v: Seq<Seq<char>>) -> Seq<Seq<char>> {
    v.map_values(|s: Seq<char>| json_quoted(s))
}

pub fn member_text(k: &str, v: &str) -> (r: String)
    ensures
        r@ == member(k@, v@),
{
    let mut r = quote_json(k);
    push_char(&mut r, ':');
    r.append(v);
    proof {
        reveal_strlit(":");
    }
    assert(r@ =~= member(k@, v@));
    r
}

pub fn object_text(members: &Vec<String>) -> (r: String)
    ensures
        r@ == object(strs(members@)),
{
    let mut r = String::new();
    push_char(&mut r, '{');
    push_joined(&mut r, members, ",");
    push_char(&mut r, '}');
    proof {
        reveal_strlit("{");
        reveal_strlit("}");
    }
    assert(r@ =~= object(strs(members@)));
    r
}

pub fn array_text(items: &Vec<String>) -> (r: String)
    ensures
        r@ == array(strs(items@)),
{
    let mut r = String::new();
    push_char(&mut r, '[');
    push_joined(&mut r, items, ",");
    push_char(&mut r, ']');
    proof {
        reveal_strlit("[");
        reveal_strlit("]");
    }
    assert(r@ =~= array(strs(items@)));
    r
}

/// The JSON array of the JSON strings of `v`.
pub fn string_array_text(v: &Vec<String>) -> (r: String)
    ensures
        r@ == array(json_strs(strs(v@))),
{
    let mut items: Vec<String> = Vec::new();
    let mut i: usize = 0;
    while i < v.len()
        invariant
            i <= v@.len(),
            items@.len() == i,
            forall|k: int| 0 <= k < i ==> #[trigger] items@[k]@ == json_quoted(v@[k]@),
        decreases v@.len() - i,
    {
        let q = quote_json(v[i].as_str());
        items.push(q);
        i = i + 1;
    }
    assert(strs(items@) =~= json_strs(strs(v@)));
    array_text(&items)
}

/// Code-point order of texts, shorter first where one begins the other: the
/// order of `String`'s `Ord`.
pub open spec fn str_lt(a: Seq<char>, b: Seq<char>) -> bool
    decreases a.len(),
{
    if a.len() == 0 {
        b.len() > 0
    } else if b.len() == 0 {
        false
    } else if a[0] != b[0] {
        (a[0] as u32) < (b[0] as u32)
    } else {
        str_lt(a.skip(1), b.skip(1))
    }
}

pub fn str_less(a: &str, b: &str) -> (r: bool)
    ensures
        r == str_lt(a@, b@),
{
    let x = chars_of(a);
    let y = chars_of(b);
    let mut i: usize = 0;
    assert(x@.skip(0) =~= x@);
    assert(y@.skip(0) =~= y@);
    while i < x.len() && i < y.len() && x[i] == y[i]
        invariant
            i <= x@.len(),
            i <= y@.len(),
            str_lt(x@, y@) == str_lt(x@.skip(i as int), y@.skip(i as int)),
        decreases x@.len() - i,
    {
        proof {
            let xs = x@.skip(i as int);
            let ys = y@.skip(i as int);
            assert(xs.skip(1) =~= x@.skip(i + 1));
            assert(ys.skip(1) =~= y@.skip(i + 1));
        }
        i = i + 1;
    }
    if i == x.len() {
        i < y.len()
    } else if i == y.len() {
        false
    } else {
        (x[i] as u32) < (y[i] as u32)
    }
}

/// An entry of a section of the document: its type, its id and its value.
pub type Entry = (Seq<char>, Seq<char>, Seq<char>);

/// Order by type, then by id.
pub open spec fn entry_lt(a: Entry, b: Entry) -> bool {
    str_lt(a.0, b.0) || (a.0 == b.0 && str_lt(a.1, b.1))
}

/// `e` put into `s` after every entry that does not come after it.
pub open spec fn insert_sorted(s: Seq<Entry>, e: Entry) -> Seq<Entry>
    decreases s.len(),
{
    if s.len() == 0 || !entry_lt(e, s.last()) {
        s.push(e)
    } else {
        insert_sorted(s.drop_last(), e).push(s.last())
    }
}

/// The entries in order of type and id; entries with equal type and id keep
/// their order.
pub open spec fn sort_entries(s: Seq<Entry>) -> Seq<Entry>
    decreases s.len(),
{
    if s.len() == 0 {
        s
    } else {
        insert_sorted(sort_entries(s.drop_last()), s.last())
    }
}

/// The types of `s`, each run of equal neighbours counted once.
pub open spec fn types_of(s: Seq<Entry>) -> Seq<Seq<char>>
    decreases s.len(),
{
    if s.len() == 0 {
        seq![]
    } else {
        let t = types_of(s.drop_last());
        if t.len() > 0 && t.last() == s.last().0 {
            t
        } else {
            t.push(s.last().0)
        }
    }
}

/// The members `"id":value` of the entries of type `t`, in order.
pub open spec fn members_of(s: Seq<Entry>, t: Seq<char>) -> Seq<Seq<char>>
    decreases s.len(),
{
    if s.len() == 0 {
        seq![]
    } else if s.last().0 == t {
        members_of(s.drop_last(), t).push(member(s.last().1, s.last().2))
    } else {
        members_of(s.drop_last(), t)
    }
}

/// The values of the entries of type `t`, in order.
pub open spec fn values_of(s: Seq<Entry>, t: Seq<char>) -> Seq<Seq<char>>
    decreases s.len(),
{
    if s.len() == 0 {
        seq![]
    } else if s.last().0 == t {
        values_of(s.drop_last(), t).push(s.last().2)
    } else {
        values_of(s.drop_last(), t)
    }
}

/// The executable form of an entry.
pub struct EntryText {
    pub kind: String,
    pub id: String,
    pub value: String,
}

impl View for EntryText {
    type V = Entry;

    open spec fn view(&self) -> Entry {
        (self.kind@, self.id@, self.value@)
    }
}

pub open spec fn entries(v: Seq<EntryText>) -> Seq<Entry> {
    v.map_values(|e: EntryText| e@)
}

fn entry_less(a: &EntryText, b: &EntryText) -> (r: bool)
    ensures
        r == entry_lt(a@, b@),
{
    if str_less(a.kind.as_str(), b.kind.as_str()) {
        true
    } else if a.kind == b.kind {
        str_less(a.id.as_str(), b.id.as_str())
    } else {
        false
    }
}

proof fn lemma_insert_at(s: Seq<Entry>, e: Entry, p: int)
    requires
        0 <= p <= s.len(),
        forall|k: int| p <= k < s.len() ==> entry_lt(e, #[trigger] s[k]),
        p == 0 || !entry_lt(e, s[p - 1]),
    ensures
        insert_sorted(s, e) == s.take(p).push(e) + s.skip(p),
    decreases s.len(),
{
    if p == s.len() {
        assert(s.take(p) =~= s);
        assert(s.take(p).push(e) + s.skip(p) =~= s.push(e));
    } else {
        let d = s.drop_last();
        lemma_insert_at(d, e, p);
        assert(s.take(p).push(e) + s.skip(p) =~= (d.take(p).push(e) + d.skip(p)).push(s.last()));
    }
}

/// Sorts entries by type and then id; equal keys keep their order.
pub fn sort_entry_texts(v: Vec<EntryText>) -> (r: Vec<EntryText>)
    ensures
        entries(r@) == sort_entries(entries(v@)),
{
    let mut out: Vec<EntryText> = Vec::new();
    let mut src = v;
    let ghost all = entries(src@);
    let ghost mut c: int = 0;
    assert(entries(src@) =~= all.skip(0));
    assert(all.take(0) =~= Seq::<Entry>::empty());
    while src.len() > 0
        invariant
            0 <= c <= all.len(),
            entries(src@) == all.skip(c),
            entries(out@) == sort_entries(all.take(c)),
        decreases src@.len(),
    {
        let ghost before = entries(src@);
        let ghost old_src = src@;
        proof {
            assert(before.len() > 0);
            assert(before[0] == all[c]);
        }
        let e = src.remove(0);
        proof {
            assert(all[c] == e@);
            assert forall|k: int| 0 <= k < entries(src@).len() implies entries(src@)[k] == all.skip(
                c + 1,
            )[k] by {
                assert(src@[k] == old_src[k + 1]);
                assert(before[k + 1] == all.skip(c)[k + 1]);
            }
            assert(entries(src@) =~= all.skip(c + 1));
        }
        let mut p: usize = out.len();
        while p > 0 && entry_less(&e, &out[p - 1])
            invariant
                p <= out@.len(),
                forall|k: int| p <= k < out@.len() ==> entry_lt(e@, #[trigger] entries(out@)[k]),
            decreases p,
        {
            p = p - 1;
        }
        let ghost sorted = entries(out@);
        proof {
            lemma_insert_at(sorted, e@, p as int);
            assert(all.take(c + 1).drop_last() =~= all.take(c));
        }
        out.insert(p, e);
        proof {
            assert(entries(out@) =~= sorted.take(p as int).push(all[c]) + sorted.skip(p as int));
            c = c + 1;
        }
    }
    assert(all.skip(c).len() == 0);
    assert(all.take(c) =~= all);
    out
}

/// `{"type":{"id":value,...},...}`, types and ids in the order of `s`.
pub open spec fn two_level(s: Seq<Entry>) -> Seq<char> {
    object(types_of(s).map_values(|t: Seq<char>| member(t, object(members_of(s, t)))))
}

/// `{"type":[value,...],...}`, in the order of `s`.
pub open spec fn listed(s: Seq<Entry>) -> Seq<char> {
    object(types_of(s).map_values(|t: Seq<char>| member(t, array(values_of(s, t)))))
}

/// `{"type":value,...}`, the value of the first entry of each type.
pub open spec fn first_of_each(s: Seq<Entry>) -> Seq<char> {
    object(types_of(s).map_values(|t: Seq<char>| member(t, values_of(s, t)[0])))
}

pub fn types_list(s: &Vec<EntryText>) -> (r: Vec<String>)
    ensures
        strs(r@) == types_of(entries(s@)),
{
    let ghost all = entries(s@);
    let mut r: Vec<String> = Vec::new();
    let mut i: usize = 0;
    assert(strs(r@) =~= types_of(all.take(0)));
    while i < s.len()
        invariant
            i <= s@.len(),
            all == entries(s@),
            strs(r@) =~= types_of(all.take(i as int)),
        decreases s@.len() - i,
    {
        assert(all.take(i + 1).drop_last() =~= all.take(i as int));
        let n = r.len();
        if n > 0 && r[n - 1] == s[i].kind {
        } else {
            r.push(s[i].kind.clone());
        }
        i = i + 1;
    }
    assert(all.take(i as int) =~= all);
    r
}

pub fn members_for(s: &Vec<EntryText>, t: &String) -> (r: Vec<String>)
    ensures
        strs(r@) == members_of(entries(s@), t@),
{
    let ghost all = entries(s@);
    let mut r: Vec<String> = Vec::new();
    let mut i: usize = 0;
    assert(strs(r@) =~= members_of(all.take(0), t@));
    while i < s.len()
        invariant
            i <= s@.len(),
            all == entries(s@),
            strs(r@) =~= members_of(all.take(i as int), t@),
        decreases s@.len() - i,
    {
        assert(all.take(i + 1).drop_last() =~= all.take(i as int));
        if s[i].kind == *t {
            r.push(member_text(s[i].id.as_str(), s[i].value.as_str()));
        }
        i = i + 1;
    }
    assert(all.take(i as int) =~= all);
    r
}

pub fn values_for(s: &Vec<EntryText>, t: &String) -> (r: Vec<String>)
    ensures
        strs(r@) == values_of(entries(s@), t@),
{
    let ghost all = entries(s@);
    let mut r: Vec<String> = Vec::new();
    let mut i: usize = 0;
    assert(strs(r@) =~= values_of(all.take(0), t@));
    while i < s.len()
        invariant
            i <= s@.len(),
            all == entries(s@),
            strs(r@) =~= values_of(all.take(i as int), t@),
        decreases s@.len() - i,
    {
        assert(all.take(i + 1).drop_last() =~= all.take(i as int));
        if s[i].kind == *t {
            r.push(s[i].value.clone());
        }
        i = i + 1;
    }
    assert(all.take(i as int) =~= all);
    r
}

proof fn lemma_types_have_values(s: Seq<Entry>, k: int)
    requires
        0 <= k < types_of(s).len(),
    ensures
        values_of(s, types_of(s)[k]).len() > 0,
    decreases s.len(),
{
    let d = s.drop_last();
    let t = types_of(d);
    if k < t.len() {
        lemma_types_have_values(d, k);
    }
}

/// The JSON object of the grouped entries; `how` chooses what each type holds:
/// 0 an object of its entries by id, 1 an array of their values, 2 the value of
/// its first entry.
pub fn grouped_text(s: &Vec<EntryText>, how: u8) -> (r: String)
    requires
        how <= 2,
    ensures
        how == 0 ==> r@ == two_level(entries(s@)),
        how == 1 ==> r@ == listed(entries(s@)),
        how == 2 ==> r@ == first_of_each(entries(s@)),
{
    let ghost all = entries(s@);
    let types = types_list(s);
    let ghost tv = types_of(all);
    let ghost want = if how == 0 {
        tv.map_values(|t: Seq<char>| member(t, object(members_of(all, t))))
    } else if how == 1 {
        tv.map_values(|t: Seq<char>| member(t, array(values_of(all, t))))
    } else {
        tv.map_values(|t: Seq<char>| member(t, values_of(all, t)[0]))
    };
    let mut ms: Vec<String> = Vec::new();
    let mut i: usize = 0;
    while i < types.len()
        invariant
            i <= types@.len(),
            strs(types@) == tv,
            tv == types_of(all),
            all == entries(s@),
            how <= 2,
            want.len() == tv.len(),
            how == 0 ==> want == tv.map_values(|t: Seq<char>| member(t, object(members_of(all, t)))),
            how == 1 ==> want == tv.map_values(|t: Seq<char>| member(t, array(values_of(all, t)))),
            how == 2 ==> want == tv.map_values(|t: Seq<char>| member(t, values_of(all, t)[0])),
            ms@.len() == i,
            forall|k: int| 0 <= k < i ==> #[trigger] ms@[k]@ == want[k],
        decreases types@.len() - i,
    {
        let t = &types[i];
        assert(t@ == tv[i as int]);
        let v = if how == 0 {
            let m = members_for(s, t);
            object_text(&m)
        } else if how == 1 {
            let m = values_for(s, t);
            array_text(&m)
        } else {
            let m = values_for(s, t);
            proof {
                lemma_types_have_values(all, i as int);
            }
            m[0].clone()
        };
        ms.push(member_text(t.as_str(), v.as_str()));
        i = i + 1;
    }
    assert(strs(ms@) =~= want);
    object_text(&ms)
}

} // verus!
