use vstd::prelude::*;
use crate::doc::strs;

verus! {

/// The texts that a list holds, as a set.
pub open spec fn set_of(v: Seq<Seq<char>>) -> Set<Seq<char>> {
    Set::new(|s: Seq<char>| v.contains(s))
}

/// `name` without `prefix` at its start, where it starts with it.
pub open spec fn strip_prefix(name: Seq<char>, prefix: Seq<char>) -> Option<Seq<char>> {
    if prefix.len() <= name.len() && name.subrange(0, prefix.len() as int) == prefix {
        Some(name.skip(prefix.len() as int))
    } else {
        None
    }
}

/// Where the selection stands after some names: the entries of the allow and
/// exclude lists not used yet, and the names chosen.
pub struct Selection {
    pub allow: Set<Seq<char>>,
    pub exclude: Set<Seq<char>>,
    pub chosen: Seq<Seq<char>>,
}

/// One resource name: with an allow list, only a name that it still holds
/// goes on, and uses up its entry; a name that the exclude list still holds
/// uses up that entry and is left out.
pub open spec fn step_resource(st: Selection, whitelist: bool, n: Seq<char>) -> Selection {
    if whitelist && !st.allow.contains(n) {
        st
    } else {
        let inc = st.allow.remove(n);
        if st.exclude.contains(n) {
            Selection { allow: inc, exclude: st.exclude.remove(n), chosen: st.chosen }
        } else {
            Selection { allow: inc, exclude: st.exclude, chosen: st.chosen.push(n) }
        }
    }
}

/// One datasource name: as for a resource, but the exclude list does not apply.
pub open spec fn step_datasource(st: Selection, whitelist: bool, n: Seq<char>) -> Selection {
    if whitelist && !st.allow.contains(n) {
        st
    } else {
        Selection { allow: st.allow.remove(n), exclude: st.exclude, chosen: st.chosen.push(n) }
    }
}

pub open spec fn select_resources(st: Selection, whitelist: bool, names: Seq<Seq<char>>) -> Selection
    decreases names.len(),
{
    if names.len() == 0 {
        st
    } else {
        step_resource(select_resources(st, whitelist, names.drop_last()), whitelist, names.last())
    }
}

pub open spec fn select_datasources(st: Selection, whitelist: bool, names: Seq<Seq<char>>) -> Selection
    decreases names.len(),
{
    if names.len() == 0 {
        st
    } else {
        step_datasource(select_datasources(st, whitelist, names.drop_last()), whitelist, names.last())
    }
}

/// Whether the list holds `x`, and the list without it.
fn take_item(v: &mut Vec<String>, x: &String) -> (r: bool)
    ensures
        r == set_of(strs(old(v)@)).contains(x@),
        set_of(strs(final(v)@)) == set_of(strs(old(v)@)).remove(x@),
{
    let ghost s0 = strs(v@);
    let mut kept: Vec<String> = Vec::new();
    let mut found = false;
    let mut i: usize = 0;
    while i < v.len()
        invariant
            i <= v@.len(),
            s0 == strs(v@),
            found == s0.take(i as int).contains(x@),
            forall|k: int| 0 <= k < kept@.len() ==> s0.contains(#[trigger] kept@[k]@) && kept@[k]@ != x@,
            forall|k: int| 0 <= k < i && s0[k] != x@ ==> strs(kept@).contains(#[trigger] s0[k]),
        decreases v@.len() - i,
    {
        assert(s0.take(i + 1) =~= s0.take(i as int).push(s0[i as int]));
        proof {
            let t0 = s0.take(i as int);
            let t1 = s0.take(i + 1);
            if s0[i as int] == x@ {
                assert(t1[i as int] == x@);
            } else if found {
                let w = choose|w: int| 0 <= w < t0.len() && t0[w] == x@;
                assert(t1[w] == x@);
            } else {
                assert forall|w: int| 0 <= w < t1.len() implies t1[w] != x@ by {
                    if w < i {
                        assert(t0[w] == t1[w]);
                    }
                }
            }
        }
        if v[i] == *x {
            found = true;
        } else {
            let ghost before = strs(kept@);
            kept.push(v[i].clone());
            assert(strs(kept@) =~= before.push(s0[i as int]));
            assert forall|k: int| 0 <= k < i + 1 && s0[k] != x@ implies strs(kept@).contains(
                #[trigger] s0[k],
            ) by {
                if k < i {
                    let w = choose|w: int| 0 <= w < before.len() && before[w] == s0[k];
                    assert(strs(kept@)[w] == s0[k]);
                } else {
                    assert(strs(kept@)[before.len() as int] == s0[k]);
                }
            }
        }
        i = i + 1;
    }
    assert(s0.take(i as int) =~= s0);
    let ghost s1 = strs(kept@);
    assert forall|s: Seq<char>| set_of(s1).contains(s) <==> set_of(s0).remove(x@).contains(s) by {
        if s1.contains(s) {
            let k = choose|k: int| 0 <= k < s1.len() && s1[k] == s;
            assert(kept@[k]@ == s);
        }
        if s0.contains(s) && s != x@ {
            let k = choose|k: int| 0 <= k < s0.len() && s0[k] == s;
            assert(s1.contains(s0[k]));
        }
    }
    assert(set_of(s1) =~= set_of(s0).remove(x@));
    *v = kept;
    found
}

/// The names of the provider's entities to generate.
pub struct Selected {
    pub resources: Vec<String>,
    pub datasources: Vec<String>,
}

/// Why the selection failed.
pub enum SelectError {
    /// An entity's name does not start with the provider's prefix.
    MissingPrefix(String),
    /// Entries of the allow list that no entity matched.
    Unmatched(Vec<String>),
}

/// The names without `prefix`, or the first name that lacks it.
pub open spec fn strip_all(names: Seq<Seq<char>>, prefix: Seq<char>) -> Result<Seq<Seq<char>>, Seq<char>>
    decreases names.len(),
{
    if names.len() == 0 {
        Ok(seq![])
    } else {
        match strip_all(names.drop_last(), prefix) {
            Err(e) => Err(e),
            Ok(s) => match strip_prefix(names.last(), prefix) {
                Some(n) => Ok(s.push(n)),
                None => Err(names.last()),
            },
        }
    }
}

/// The datasource names as generated: `data_` before the name without the
/// prefix.
pub open spec fn data_names(s: Seq<Seq<char>>) -> Seq<Seq<char>> {
    s.map_values(|n: Seq<char>| "data_"@ + n)
}

fn strip_names(names: &Vec<String>, prefix: &str, data: bool) -> (r: Result<Vec<String>, String>)
    ensures
        match r {
            Ok(v) => strip_all(strs(names@), prefix@) is Ok && strs(v@) == (if data {
                data_names(strip_all(strs(names@), prefix@)->Ok_0)
            } else {
                strip_all(strs(names@), prefix@)->Ok_0
            }),
            Err(e) => strip_all(strs(names@), prefix@) == Result::<Seq<Seq<char>>, Seq<char>>::Err(
                e@,
            ),
        },
{
    let ghost all = strs(names@);
    let p = crate::text::chars_of(prefix);
    let mut out: Vec<String> = Vec::new();
    let mut i: usize = 0;
    assert(all.take(0) =~= Seq::<Seq<char>>::empty());
    while i < names.len()
        invariant
            i <= names@.len(),
            all == strs(names@),
            p@ == prefix@,
            strip_all(all.take(i as int), prefix@) is Ok,
            strs(out@) == (if data {
                data_names(strip_all(all.take(i as int), prefix@)->Ok_0)
            } else {
                strip_all(all.take(i as int), prefix@)->Ok_0
            }),
        decreases names@.len() - i,
    {
        assert(all.take(i + 1).drop_last() =~= all.take(i as int));
        let n = crate::text::chars_of(names[i].as_str());
        if !crate::text::starts_with_at(&n, 0, &p) {
            assert(n@.skip(0) =~= n@);
            assert(strip_all(all.take(i + 1), prefix@) is Err);
            proof {
                lemma_strip_err(all, prefix@, i + 1);
            }
            return Err(names[i].clone());
        }
        assert(n@.skip(0) =~= n@);
        let mut rest: Vec<char> = Vec::new();
        if data {
            rest.push('d');
            rest.push('a');
            rest.push('t');
            rest.push('a');
            rest.push('_');
        }
        proof {
            reveal_strlit("data_");
        }
        let ghost r0 = rest@;
        assert(data ==> r0 =~= "data_"@);
        assert(!data ==> r0 =~= Seq::<char>::empty());
        let mut j: usize = p.len();
        while j < n.len()
            invariant
                p@.len() <= j <= n@.len(),
                rest@ == r0 + n@.subrange(p@.len() as int, j as int),
            decreases n@.len() - j,
        {
            rest.push(n[j]);
            j = j + 1;
            assert(rest@ =~= r0 + n@.subrange(p@.len() as int, j as int));
        }
        let s = crate::text::string_of(&rest);
        let ghost before = strs(out@);
        out.push(s);
        proof {
            reveal_strlit("data_");
            assert(n@.subrange(p@.len() as int, n@.len() as int) =~= n@.skip(p@.len() as int));
            assert(strs(out@) =~= before.push(s@));
            assert(all.take(i + 1).last() == n@);
            assert(strip_prefix(n@, prefix@) == Some(n@.skip(p@.len() as int)));
            assert(strip_all(all.take(i + 1), prefix@)->Ok_0 =~= strip_all(all.take(i as int), prefix@)->Ok_0.push(
                n@.skip(p@.len() as int),
            ));
            if data {
                assert(data_names(strip_all(all.take(i + 1), prefix@)->Ok_0) =~= data_names(
                    strip_all(all.take(i as int), prefix@)->Ok_0,
                ).push("data_"@ + n@.skip(p@.len() as int)));
            }
        }
        i = i + 1;
    }
    assert(all.take(i as int) =~= all);
    Ok(out)
}

proof fn lemma_strip_err(s: Seq<Seq<char>>, prefix: Seq<char>, n: int)
    requires
        0 <= n <= s.len(),
        strip_all(s.take(n), prefix) is Err,
    ensures
        strip_all(s, prefix) == strip_all(s.take(n), prefix),
    decreases s.len(),
{
    if n == s.len() {
        assert(s.take(n) =~= s);
    } else {
        assert(s.drop_last().take(n) =~= s.take(n));
        lemma_strip_err(s.drop_last(), prefix, n);
    }
}

pub enum SelectFailure {
    MissingPrefix(Seq<char>),
    Unmatched(Set<Seq<char>>),
}

/// Which resources and datasources of a provider are generated: names lose the
/// provider's prefix (datasources gain `data_`); an allow list, where it is not
/// empty, keeps only the names it holds, each at most once, and every entry of
/// it must be used; the exclude list drops resources.
pub open spec fn select_spec(
    resources: Seq<Seq<char>>,
    datasources: Seq<Seq<char>>,
    prefix: Seq<char>,
    allow: Seq<Seq<char>>,
    exclude: Seq<Seq<char>>,
) -> Result<(Seq<Seq<char>>, Seq<Seq<char>>), SelectFailure> {
    match strip_all(resources, prefix) {
        Err(n) => Err(SelectFailure::MissingPrefix(n)),
        Ok(rn) => {
            let wl = allow.len() > 0;
            let st0 = Selection { allow: set_of(allow), exclude: set_of(exclude), chosen: seq![] };
            let st1 = select_resources(st0, wl, rn);
            match strip_all(datasources, prefix) {
                Err(n) => Err(SelectFailure::MissingPrefix(n)),
                Ok(dn) => {
                    let st2 = select_datasources(
                        Selection { chosen: seq![], ..st1 },
                        wl,
                        data_names(dn),
                    );
                    if wl && st2.allow != Set::<Seq<char>>::empty() {
                        Err(SelectFailure::Unmatched(st2.allow))
                    } else {
                        Ok((st1.chosen, st2.chosen))
                    }
                },
            }
        },
    }
}

pub open spec fn select_view(r: Result<Selected, SelectError>) -> Result<
    (Seq<Seq<char>>, Seq<Seq<char>>),
    SelectFailure,
> {
    match r {
        Ok(s) => Ok((strs(s.resources@), strs(s.datasources@))),
        Err(SelectError::MissingPrefix(n)) => Err(SelectFailure::MissingPrefix(n@)),
        Err(SelectError::Unmatched(v)) => Err(SelectFailure::Unmatched(set_of(strs(v@)))),
    }
}

pub(crate) fn copy_strings(v: &Vec<String>) -> (r: Vec<String>)
    ensures
        strs(r@) == strs(v@),
{
    let mut r: Vec<String> = Vec::new();
    let mut i: usize = 0;
    while i < v.len()
        invariant
            i <= v@.len(),
            strs(r@) =~= strs(v@).take(i as int),
        decreases v@.len() - i,
    {
        let ghost before = strs(r@);
        r.push(v[i].clone());
        assert(strs(r@) =~= before.push(v@[i as int]@));
        i = i + 1;
    }
    assert(strs(v@).take(i as int) =~= strs(v@));
    r
}

proof fn lemma_set_of_empty(v: Seq<Seq<char>>)
    ensures
        (set_of(v) == Set::<Seq<char>>::empty()) == (v.len() == 0),
{
    if v.len() == 0 {
        assert(set_of(v) =~= Set::<Seq<char>>::empty());
    } else {
        assert(set_of(v).contains(v[0]));
    }
}

/// Picks the resources and datasources to generate, from the provider's names,
/// its prefix, and the allow and exclude lists.
pub fn select_entities(
    resources: &Vec<String>,
    datasources: &Vec<String>,
    prefix: &str,
    allow: &Vec<String>,
    exclude: &Vec<String>,
) -> (r: Result<Selected, SelectError>)
    ensures
        select_view(r) == select_spec(strs(resources@), strs(datasources@), prefix@, strs(allow@), strs(exclude@)),
{
    let rn = match strip_names(resources, prefix, false) {
        Ok(v) => v,
        Err(n) => {
            return Err(SelectError::MissingPrefix(n));
        },
    };
    let wl = allow.len() > 0;
    let mut al = copy_strings(allow);
    let mut ex = copy_strings(exclude);
    let ghost st0 = Selection {
        allow: set_of(strs(allow@)),
        exclude: set_of(strs(exclude@)),
        chosen: seq![],
    };
    let ghost rs = strs(rn@);
    let mut chosen: Vec<String> = Vec::new();
    let mut i: usize = 0;
    assert(rs.take(0) =~= Seq::<Seq<char>>::empty());
    assert(strs(chosen@) =~= Seq::<Seq<char>>::empty());
    while i < rn.len()
        invariant
            i <= rn@.len(),
            rs == strs(rn@),
            wl == (allow@.len() > 0),
            select_resources(st0, wl, rs.take(i as int)) == (Selection {
                allow: set_of(strs(al@)),
                exclude: set_of(strs(ex@)),
                chosen: strs(chosen@),
            }),
        decreases rn@.len() - i,
    {
        assert(rs.take(i + 1).drop_last() =~= rs.take(i as int));
        let n = &rn[i];
        let ghost cur = select_resources(st0, wl, rs.take(i as int));
        assert(rs.take(i + 1).last() == n@);
        if wl {
            let had = take_item(&mut al, n);
            if !had {
                assert(cur.allow =~= cur.allow.remove(n@));
                i = i + 1;
                continue;
            }
        } else {
            let _ = take_item(&mut al, n);
        }
        let dropped = take_item(&mut ex, n);
        if !dropped {
            assert(cur.exclude =~= cur.exclude.remove(n@));
            let ghost before = strs(chosen@);
            chosen.push(n.clone());
            assert(strs(chosen@) =~= before.push(n@));
        }
        i = i + 1;
    }
    assert(rs.take(i as int) =~= rs);
    let dn = match strip_names(datasources, prefix, true) {
        Ok(v) => v,
        Err(n) => {
            return Err(SelectError::MissingPrefix(n));
        },
    };
    let ghost st1 = Selection { chosen: seq![], ..select_resources(st0, wl, rs) };
    let ghost ds = strs(dn@);
    let mut dchosen: Vec<String> = Vec::new();
    let mut j: usize = 0;
    assert(ds.take(0) =~= Seq::<Seq<char>>::empty());
    assert(strs(dchosen@) =~= Seq::<Seq<char>>::empty());
    while j < dn.len()
        invariant
            j <= dn@.len(),
            ds == strs(dn@),
            wl == (allow@.len() > 0),
            select_datasources(st1, wl, ds.take(j as int)) == (Selection {
                allow: set_of(strs(al@)),
                exclude: set_of(strs(ex@)),
                chosen: strs(dchosen@),
            }),
        decreases dn@.len() - j,
    {
        assert(ds.take(j + 1).drop_last() =~= ds.take(j as int));
        let n = &dn[j];
        let ghost cur = select_datasources(st1, wl, ds.take(j as int));
        assert(ds.take(j + 1).last() == n@);
        if wl {
            let had = take_item(&mut al, n);
            if !had {
                assert(cur.allow =~= cur.allow.remove(n@));
                j = j + 1;
                continue;
            }
        } else {
            let _ = take_item(&mut al, n);
        }
        let ghost before = strs(dchosen@);
        dchosen.push(n.clone());
        assert(strs(dchosen@) =~= before.push(n@));
        j = j + 1;
    }
    assert(ds.take(j as int) =~= ds);
    proof {
        lemma_set_of_empty(strs(al@));
    }
    if wl && al.len() > 0 {
        return Err(SelectError::Unmatched(al));
    }
    Ok(Selected { resources: chosen, datasources: dchosen })
}

/// The position of the first `/` in `p` at or after `i`, or -1.
pub open spec fn first_slash(p: Seq<char>, i: int) -> int
    decreases p.len() - i,
{
    if i < 0 || i >= p.len() {
        -1
    } else if p[i] == '/' {
        i
    } else {
        first_slash(p, i + 1)
    }
}

/// A provider's source split into vendor and short name at its first `/`;
/// without one, the vendor is `hashicorp`.
pub open spec fn split_provider(p: Seq<char>) -> (Seq<char>, Seq<char>) {
    let k = first_slash(p, 0);
    if k >= 0 {
        (p.subrange(0, k), p.skip(k + 1))
    } else {
        ("hashicorp"@, p)
    }
}

/// The key under which the schema document lists a provider.
pub open spec fn provider_key(vendor: Seq<char>, shortname: Seq<char>) -> Seq<char> {
    "registry.terraform.io/"@ + vendor + "/"@ + shortname
}

proof fn lemma_first_slash(p: Seq<char>, i: int)
    requires
        0 <= i <= p.len(),
    ensures
        first_slash(p, i) == -1 || (i <= first_slash(p, i) < p.len() && p[first_slash(p, i)] == '/'),
    decreases p.len() - i,
{
    if i < p.len() && p[i] != '/' {
        lemma_first_slash(p, i + 1);
    }
}

/// Splits a provider's source into vendor and short name.
pub fn split_provider_source(p: &str) -> (r: (String, String))
    ensures
        (r.0@, r.1@) == split_provider(p@),
{
    let c = crate::text::chars_of(p);
    let mut k: usize = c.len();
    let mut i: usize = c.len();
    while i > 0
        invariant
            i <= c@.len(),
            c@ == p@,
            k as int == (if first_slash(p@, i as int) >= 0 {
                first_slash(p@, i as int)
            } else {
                c@.len() as int
            }),
        decreases i,
    {
        i = i - 1;
        if c[i] == '/' {
            k = i;
        }
    }
    proof {
        lemma_first_slash(p@, 0);
    }
    if k < c.len() {
        let mut a: Vec<char> = Vec::new();
        let mut j: usize = 0;
        while j < k
            invariant
                j <= k,
                k < c@.len(),
                a@ =~= c@.subrange(0, j as int),
            decreases k - j,
        {
            a.push(c[j]);
            j = j + 1;
            assert(a@ =~= c@.subrange(0, j as int));
        }
        let mut b: Vec<char> = Vec::new();
        let mut j2: usize = k + 1;
        while j2 < c.len()
            invariant
                k + 1 <= j2 <= c@.len(),
                b@ =~= c@.subrange(k + 1, j2 as int),
            decreases c@.len() - j2,
        {
            b.push(c[j2]);
            j2 = j2 + 1;
            assert(b@ =~= c@.subrange(k + 1, j2 as int));
        }
        assert(b@ =~= c@.skip(k + 1));
        (crate::text::string_of(&a), crate::text::string_of(&b))
    } else {
        proof {
            reveal_strlit("hashicorp");
        }
        (String::from_str("hashicorp"), String::from_str(p))
    }
}

/// The key under which the schema document lists the provider.
pub fn provider_key_text(vendor: &str, shortname: &str) -> (r: String)
    ensures
        r@ == provider_key(vendor@, shortname@),
{
    let mut s = String::from_str("registry.terraform.io/");
    s.append(vendor);
    crate::text::push_char(&mut s, '/');
    s.append(shortname);
    proof {
        reveal_strlit("registry.terraform.io/");
        reveal_strlit("/");
    }
    assert(s@ =~= provider_key(vendor@, shortname@));
    s
}

/// The prefix that the provider's entity names carry: the short name and `_`.
pub fn provider_prefix(shortname: &str) -> (r: String)
    ensures
        r@ == shortname@ + "_"@,
{
    let mut s = String::from_str(shortname);
    crate::text::push_char(&mut s, '_');
    proof {
        reveal_strlit("_");
    }
    assert(s@ =~= shortname@ + "_"@);
    s
}

/// The first position whose name an earlier position holds too, or -1.
pub open spec fn first_repeat(s: Seq<Seq<char>>) -> int
    decreases s.len(),
{
    if s.len() == 0 {
        -1
    } else {
        let d = first_repeat(s.drop_last());
        if d >= 0 {
            d
        } else if s.drop_last().contains(s.last()) {
            s.len() - 1
        } else {
            -1
        }
    }
}

proof fn lemma_first_repeat_prefix(s: Seq<Seq<char>>, n: int)
    requires
        0 <= n <= s.len(),
        first_repeat(s.take(n)) >= 0,
    ensures
        first_repeat(s) == first_repeat(s.take(n)),
    decreases s.len(),
{
    if n == s.len() {
        assert(s.take(n) =~= s);
    } else {
        assert(s.drop_last().take(n) =~= s.take(n));
        lemma_first_repeat_prefix(s.drop_last(), n);
    }
}

/// The first generated name that an earlier one already took: the resources'
/// names come first, then the datasources'.
pub fn name_collision(sel: &Selected) -> (r: Option<String>)
    ensures
        match r {
            Some(n) => first_repeat(strs(sel.resources@) + strs(sel.datasources@)) >= 0 && n@ == (
            strs(sel.resources@) + strs(sel.datasources@))[first_repeat(
                strs(sel.resources@) + strs(sel.datasources@),
            )],
            None => first_repeat(strs(sel.resources@) + strs(sel.datasources@)) == -1,
        },
{
    let mut all = copy_strings(&sel.resources);
    let mut d = copy_strings(&sel.datasources);
    let ghost want = strs(sel.resources@) + strs(sel.datasources@);
    let ghost a0 = strs(all@);
    let ghost d0 = strs(d@);
    all.append(&mut d);
    assert(strs(all@) =~= a0 + d0);
    let ghost s = strs(all@);
    let mut i: usize = 0;
    while i < all.len()
        invariant
            i <= all@.len(),
            s == strs(all@),
            s == want,
            want == strs(sel.resources@) + strs(sel.datasources@),
            first_repeat(s.take(i as int)) == -1,
        decreases all@.len() - i,
    {
        let ghost pre = s.take(i + 1);
        assert(pre.drop_last() =~= s.take(i as int));
        let mut j: usize = 0;
        while j < i
            invariant
                j <= i,
                i < all@.len(),
                s == strs(all@),
                s == want,
                want == strs(sel.resources@) + strs(sel.datasources@),
                pre == s.take(i + 1),
                first_repeat(s.take(i as int)) == -1,
                forall|k: int| 0 <= k < j ==> s[k] != s[i as int],
            decreases i - j,
        {
            if all[j] == all[i] {
                proof {
                    assert(pre.drop_last() =~= s.take(i as int));
                    assert(pre.drop_last()[j as int] == pre.last());
                    assert(first_repeat(pre) == i);
                    lemma_first_repeat_prefix(s, i + 1);
                }
                let c = all[i].clone();
                assert(c@ == s[i as int]);
                assert(first_repeat(want) == i);
                return Some(c);
            }
            j = j + 1;
        }
        proof {
            assert(pre.drop_last() =~= s.take(i as int));
            if pre.drop_last().contains(pre.last()) {
                let w = choose|w: int| 0 <= w < pre.drop_last().len() && pre.drop_last()[w] == pre.last();
                assert(s[w] == s[i as int]);
            }
        }
        i = i + 1;
    }
    assert(s.take(i as int) =~= s);
    None
}

} // verus!
