use vstd::prelude::*;
use crate::text::{
    decimal, decimal_string, decimal_u64, digit_char, join, json_quoted, push_char, push_joined, quote_json, starts_with,
    starts_with_at, chars_of, string_of,
};

verus! {

/// The placeholder that stands for the `n`th expression of a ledger.
pub open spec fn sentinel_token(n: nat) -> Seq<char> {
    "_TERRARS_SENTINEL_"@ + decimal(n) + "_"@
}

/// The interpolation syntax around an expression: `${expr}`.
pub open spec fn interpolation(e: Seq<char>) -> Seq<char> {
    "${"@ + e + "}"@
}

/// The escaping ledger of a graph: each entry pairs a placeholder token with the
/// text that replaces it when the document is finished.
pub struct StackShared {
    replace_exprs: Vec<(String, String)>,
}

impl View for StackShared {
    type V = Seq<(Seq<char>, Seq<char>)>;

    closed spec fn view(&self) -> Seq<(Seq<char>, Seq<char>)> {
        self.replace_exprs@.map_values(|p: (String, String)| (p.0@, p.1@))
    }
}

/// Every entry of a ledger holds the token of its position.
pub open spec fn ledger_wf(l: Seq<(Seq<char>, Seq<char>)>) -> bool {
    forall|i: int| 0 <= i < l.len() ==> #[trigger] l[i].0 == sentinel_token(i as nat)
}

impl StackShared {
    pub fn new() -> (r: StackShared)
        ensures
            r@ == Seq::<(Seq<char>, Seq<char>)>::empty(),
            ledger_wf(r@),
    {
        let r = StackShared { replace_exprs: Vec::new() };
        assert(r@ =~= Seq::<(Seq<char>, Seq<char>)>::empty());
        r
    }

    pub fn len(&self) -> (r: usize)
        ensures
            r == self@.len(),
    {
        self.replace_exprs.len()
    }

    /// Registers `v` as an expression and returns the fresh token that stands for
    /// it until the document is finished.
    pub fn add_sentinel(&mut self, v: &str) -> (r: String)
        ensures
            r@ == sentinel_token(old(self)@.len()),
            final(self)@ == old(self)@.push((r@, interpolation(v@))),
            ledger_wf(old(self)@) ==> ledger_wf(final(self)@),
    {
        let mut k = String::from_str("_TERRARS_SENTINEL_");
        let n = decimal_string(self.replace_exprs.len());
        k.append(n.as_str());
        push_char(&mut k, '_');
        let mut e = String::from_str("${");
        e.append(v);
        push_char(&mut e, '}');
        proof {
            reveal_strlit("_TERRARS_SENTINEL_");
            reveal_strlit("_");
            reveal_strlit("${");
            reveal_strlit("}");
        }
        assert(k@ =~= sentinel_token(old(self)@.len()));
        assert(e@ =~= interpolation(v@));
        let kc = k.clone();
        assert(kc@ == k@);
        self.replace_exprs.push((kc, e));
        assert(self@ =~= old(self)@.push((k@, interpolation(v@))));
        k
    }

    /// Forgets every registered expression.
    pub fn clear(&mut self)
        ensures
            final(self)@ == Seq::<(Seq<char>, Seq<char>)>::empty(),
            ledger_wf(final(self)@),
    {
        self.replace_exprs.clear();
        assert(self@ =~= Seq::<(Seq<char>, Seq<char>)>::empty());
    }

    /// Replaces every token of the ledger in `text` by its expression.
    pub fn resolve(&self, text: &str) -> (r: String)
        ensures
            r@ == resolve(text@, self@),
    {
        let s = chars_of(text);
        let mut tokens: Vec<Vec<char>> = Vec::new();
        let mut i: usize = 0;
        while i < self.replace_exprs.len()
            invariant
                i <= self.replace_exprs@.len(),
                tokens@.len() == i,
                forall|j: int| 0 <= j < i ==> #[trigger] tokens@[j]@ == self@[j].0,
            decreases self.replace_exprs@.len() - i,
        {
            tokens.push(chars_of(self.replace_exprs[i].0.as_str()));
            i = i + 1;
        }
        let mut out: Vec<char> = Vec::new();
        let mut at: usize = 0;
        assert(s@.skip(0) =~= s@);
        assert(out@ + resolve(s@, self@) =~= resolve(s@, self@));
        while at < s.len()
            invariant
                at <= s@.len(),
                tokens@.len() == self@.len(),
                forall|j: int| 0 <= j < tokens@.len() ==> #[trigger] tokens@[j]@ == self@[j].0,
                out@ + resolve(s@.skip(at as int), self@) == resolve(s@, self@),
            decreases s@.len() - at,
        {
            let ghost rest = s@.skip(at as int);
            let k = self.find_token(&s, at, &tokens);
            proof {
                lemma_first_token(rest, self@, 0);
            }
            if k < tokens.len() {
                let t = &tokens[k];
                let ex = chars_of(self.replace_exprs[k].1.as_str());
                let mut j: usize = 0;
                let ghost out0 = out@;
                while j < ex.len()
                    invariant
                        j <= ex@.len(),
                        out@ == out0 + ex@.take(j as int),
                    decreases ex@.len() - j,
                {
                    out.push(ex[j]);
                    j = j + 1;
                    assert(out@ =~= out0 + ex@.take(j as int));
                }
                assert(ex@.take(ex@.len() as int) =~= ex@);
                assert(s@.skip(at as int).skip(t@.len() as int) =~= s@.skip(at + t@.len()));
                at = at + t.len();
            } else {
                out.push(s[at]);
                assert(s@.skip(at as int).skip(1) =~= s@.skip(at + 1));
                at = at + 1;
            }
            assert(out@ + resolve(s@.skip(at as int), self@) =~= resolve(s@, self@));
        }
        assert(s@.skip(at as int) =~= Seq::<char>::empty());
        assert(out@ + resolve(Seq::<char>::empty(), self@) =~= out@);
        string_of(&out)
    }

    /// The first position at or after `from` in the ledger whose token stands at
    /// `at` in `s`, or the ledger's length.
    fn find_token(&self, s: &Vec<char>, at: usize, tokens: &Vec<Vec<char>>) -> (k: usize)
        requires
            at < s@.len(),
            tokens@.len() == self@.len(),
            forall|j: int| 0 <= j < tokens@.len() ==> #[trigger] tokens@[j]@ == self@[j].0,
        ensures
            k as int == first_token(s@.skip(at as int), self@, 0),
    {
        let mut k: usize = tokens.len();
        let mut j: usize = tokens.len();
        while j > 0
            invariant
                j <= tokens@.len(),
                at < s@.len(),
                tokens@.len() == self@.len(),
                forall|i: int| 0 <= i < tokens@.len() ==> #[trigger] tokens@[i]@ == self@[i].0,
                k as int == first_token(s@.skip(at as int), self@, j as int),
            decreases j,
        {
            j = j - 1;
            if tokens[j].len() > 0 && starts_with_at(s, at, &tokens[j]) {
                k = j;
            }
        }
        k
    }
}

/// The first position at or after `from` in `l` whose token is not empty and
/// stands at the start of `s`, or `l`'s length.
pub open spec fn first_token(s: Seq<char>, l: Seq<(Seq<char>, Seq<char>)>, from: int) -> int
    decreases l.len() - from,
{
    if from < 0 || from >= l.len() {
        l.len() as int
    } else if l[from].0.len() > 0 && starts_with(s, l[from].0) {
        from
    } else {
        first_token(s, l, from + 1)
    }
}

proof fn lemma_first_token(s: Seq<char>, l: Seq<(Seq<char>, Seq<char>)>, from: int)
    requires
        0 <= from,
    ensures
        from <= first_token(s, l, from) <= l.len() || first_token(s, l, from) == l.len(),
        first_token(s, l, from) < l.len() ==> l[first_token(s, l, from)].0.len() > 0
            && starts_with(s, l[first_token(s, l, from)].0),
    decreases l.len() - from,
{
    if from < l.len() && !(l[from].0.len() > 0 && starts_with(s, l[from].0)) {
        lemma_first_token(s, l, from + 1);
    }
}

/// `s` read from the start: where a token of the ledger stands (the first of the
/// ledger's order), its expression is written in its place; every other
/// character is kept.
pub open spec fn resolve(s: Seq<char>, l: Seq<(Seq<char>, Seq<char>)>) -> Seq<char>
    decreases s.len(),
{
    if s.len() == 0 {
        seq![]
    } else {
        let k = first_token(s, l, 0);
        if 0 <= k < l.len() && 0 < l[k].0.len() <= s.len() {
            l[k].1 + resolve(s.skip(l[k].0.len() as int), l)
        } else {
            seq![s[0]] + resolve(s.skip(1), l)
        }
    }
}

/// The text holds no underscore, so no token can start in it.
pub open spec fn no_underscore(s: Seq<char>) -> bool {
    forall|k: int| 0 <= k < s.len() ==> s[k] != '_'
}

proof fn lemma_decimal_digits(n: nat)
    ensures
        decimal(n).len() >= 1,
        n >= 10 ==> decimal(n).len() >= 2,
        no_underscore(decimal(n)),
    decreases n,
{
    if n >= 10 {
        lemma_decimal_digits(n / 10);
    }
}

proof fn lemma_digit_injective(a: nat, b: nat)
    requires
        a < 10,
        b < 10,
        digit_char(a) == digit_char(b),
    ensures
        a == b,
{
    assert(a == 0 || a == 1 || a == 2 || a == 3 || a == 4 || a == 5 || a == 6 || a == 7 || a == 8
        || a == 9);
    assert(b == 0 || b == 1 || b == 2 || b == 3 || b == 4 || b == 5 || b == 6 || b == 7 || b == 8
        || b == 9);
}

proof fn lemma_decimal_injective(n: nat, m: nat)
    requires
        decimal(n) == decimal(m),
    ensures
        n == m,
    decreases n,
{
    lemma_decimal_digits(n);
    lemma_decimal_digits(m);
    if n >= 10 && m >= 10 {
        assert(decimal(n) == decimal(n / 10).push(digit_char(n % 10)));
        assert(decimal(m) == decimal(m / 10).push(digit_char(m % 10)));
        assert(decimal(n).drop_last() =~= decimal(n / 10));
        assert(decimal(m).drop_last() =~= decimal(m / 10));
        lemma_decimal_injective(n / 10, m / 10);
        assert(decimal(n).last() == decimal(m).last());
        let a: nat = n % 10;
        let b: nat = m % 10;
        assert(decimal(n).last() == digit_char(a));
        assert(decimal(m).last() == digit_char(b));
        lemma_digit_injective(a, b);
    } else if n < 10 && m < 10 {
        assert(decimal(n) == seq![digit_char(n)]);
        assert(decimal(m) == seq![digit_char(m)]);
        assert(decimal(n)[0] == decimal(m)[0]);
        assert(decimal(n)[0] == digit_char(n));
        assert(decimal(m)[0] == digit_char(m));
        lemma_digit_injective(n, m);
    }
}

proof fn lemma_token_prefix(i: nat, j: nat, b: Seq<char>)
    requires
        starts_with(sentinel_token(i) + b, sentinel_token(j)),
    ensures
        i == j,
{
    reveal_strlit("_TERRARS_SENTINEL_");
    reveal_strlit("_");
    let p = "_TERRARS_SENTINEL_"@;
    let di = decimal(i);
    let dj = decimal(j);
    let s = sentinel_token(i) + b;
    let tj = sentinel_token(j);
    lemma_decimal_digits(i);
    lemma_decimal_digits(j);
    assert(s.subrange(0, tj.len() as int) == tj);
    assert(forall|k: int| 0 <= k < tj.len() ==> s[k] == #[trigger] tj[k]) by {
        assert forall|k: int| 0 <= k < tj.len() implies s[k] == #[trigger] tj[k] by {
            assert(s.subrange(0, tj.len() as int)[k] == s[k]);
        }
    }
    if dj.len() < di.len() {
        let k: int = (p.len() + dj.len()) as int;
        assert(tj[k] == '_');
        assert(s[k] == di[dj.len() as int]);
    } else if dj.len() > di.len() {
        let k: int = (p.len() + di.len()) as int;
        assert(s[k] == '_');
        assert(tj[k] == dj[di.len() as int]);
    } else {
        assert forall|k: int| 0 <= k < dj.len() implies dj[k] == di[k] by {
            assert(tj[p.len() + k] == s[p.len() + k]);
        }
        assert(dj =~= di);
        lemma_decimal_injective(i, j);
    }
}

proof fn lemma_first_token_at(s: Seq<char>, l: Seq<(Seq<char>, Seq<char>)>, from: int, i: int)
    requires
        0 <= from <= i < l.len(),
        l[i].0.len() > 0 && starts_with(s, l[i].0),
        forall|j: int| from <= j < i ==> !(l[j].0.len() > 0 && starts_with(s, #[trigger] l[j].0)),
    ensures
        first_token(s, l, from) == i,
    decreases i - from,
{
    if from < i {
        lemma_first_token_at(s, l, from + 1, i);
    }
}

proof fn lemma_first_token_none(s: Seq<char>, l: Seq<(Seq<char>, Seq<char>)>, from: int)
    requires
        0 <= from,
        ledger_wf(l),
        s.len() > 0,
        s[0] != '_',
    ensures
        first_token(s, l, from) == l.len(),
    decreases l.len() - from,
{
    if from < l.len() {
        reveal_strlit("_TERRARS_SENTINEL_");
        assert(l[from].0 == sentinel_token(from as nat));
        assert(l[from].0[0] == '_');
        if starts_with(s, l[from].0) {
            assert(s.subrange(0, l[from].0.len() as int)[0] == s[0]);
        }
        lemma_first_token_none(s, l, from + 1);
    }
}

proof fn lemma_resolve_plain_prefix(a: Seq<char>, rest: Seq<char>, l: Seq<(Seq<char>, Seq<char>)>)
    requires
        ledger_wf(l),
        no_underscore(a),
    ensures
        resolve(a + rest, l) == a + resolve(rest, l),
    decreases a.len(),
{
    if a.len() > 0 {
        let s = a + rest;
        lemma_first_token_none(s, l, 0);
        assert(s.skip(1) =~= a.skip(1) + rest);
        lemma_resolve_plain_prefix(a.skip(1), rest, l);
        assert(seq![s[0]] + (a.skip(1) + resolve(rest, l)) =~= a + resolve(rest, l));
    } else {
        assert(a + rest =~= rest);
        assert(a + resolve(rest, l) =~= resolve(rest, l));
    }
}

/// A token of a well-formed ledger, written between texts that hold no
/// underscore, comes out of resolution as its expression, exactly once, with
/// the texts around it unchanged: no token is left and none is replaced twice.
pub proof fn sentinel_resolves_once(
    l: Seq<(Seq<char>, Seq<char>)>,
    i: int,
    a: Seq<char>,
    b: Seq<char>,
)
    requires
        ledger_wf(l),
        0 <= i < l.len(),
        no_underscore(a),
        no_underscore(b),
    ensures
        resolve(a + l[i].0 + b, l) == a + l[i].1 + b,
{
    let t = l[i].0;
    let s = t + b;
    assert(t == sentinel_token(i as nat));
    assert(t.len() > 0) by {
        reveal_strlit("_TERRARS_SENTINEL_");
    }
    assert(s.subrange(0, t.len() as int) =~= t);
    assert forall|j: int| 0 <= j < i implies !(l[j].0.len() > 0 && starts_with(s, #[trigger] l[j].0)) by {
        if l[j].0.len() > 0 && starts_with(s, l[j].0) {
            assert(l[j].0 == sentinel_token(j as nat));
            lemma_token_prefix(i as nat, j as nat, b);
        }
    }
    lemma_first_token_at(s, l, 0, i);
    assert(s.skip(t.len() as int) =~= b);
    lemma_resolve_plain_prefix(b, seq![], l);
    assert(b + Seq::<char>::empty() =~= b);
    assert(resolve(Seq::<char>::empty(), l) =~= Seq::<char>::empty());
    assert(resolve(s, l) == l[i].1 + b);
    lemma_resolve_plain_prefix(a, s, l);
    assert(a + t + b =~= a + s);
    assert(a + (l[i].1 + b) =~= a + l[i].1 + b);
}

} // verus!

verus! {

/// The expression text of `n`: its decimal digits, after a minus sign when it
/// is negative.
pub open spec fn int_text(n: int) -> Seq<char> {
    if n < 0 {
        seq!['-'] + decimal((-n) as nat)
    } else {
        decimal(n as nat)
    }
}

/// A value that can be written as a literal expression.
pub trait PrimType {
    /// The literal expression for the value.
    spec fn expr_text(&self) -> Seq<char>;

    fn to_expr_raw(&self) -> (r: String)
        ensures
            r@ == self.expr_text(),
    ;
}

impl PrimType for bool {
    open spec fn expr_text(&self) -> Seq<char> {
        if *self {
            "true"@
        } else {
            "false"@
        }
    }

    fn to_expr_raw(&self) -> (r: String) {
        if *self {
            String::from_str("true")
        } else {
            String::from_str("false")
        }
    }
}

impl PrimType for i64 {
    open spec fn expr_text(&self) -> Seq<char> {
        int_text(*self as int)
    }

    fn to_expr_raw(&self) -> (r: String) {
        if *self < 0 {
            let m: u64 = (0i128 - (*self as i128)) as u64;
            let d = decimal_u64(m);
            let mut s = String::new();
            push_char(&mut s, '-');
            s.append(d.as_str());
            assert(s@ =~= int_text(*self as int));
            s
        } else {
            decimal_u64(*self as u64)
        }
    }
}

impl PrimType for String {
    open spec fn expr_text(&self) -> Seq<char> {
        json_quoted(self@)
    }

    fn to_expr_raw(&self) -> (r: String) {
        quote_json(self.as_str())
    }
}

/// An expression whose value has type `T` once the provisioning engine has
/// computed it.
pub struct PrimExpr<T> {
    raw: String,
    _pd: core::marker::PhantomData<T>,
}

impl<T> PrimExpr<T> {
    /// The expression's text.
    pub closed spec fn text(&self) -> Seq<char> {
        self.raw@
    }

    /// Wraps text that is already a valid expression.
    pub fn new(raw: String) -> (r: PrimExpr<T>)
        ensures
            r.text() == raw@,
    {
        PrimExpr { raw, _pd: core::marker::PhantomData }
    }

    pub fn raw(&self) -> (r: String)
        ensures
            r@ == self.text(),
    {
        self.raw.clone()
    }

    /// The text to write where a string of the document should hold the value of
    /// this expression: a fresh token of the ledger, which the finished document
    /// shows as `${expr}`.
    pub fn to_field(&self, shared: &mut StackShared) -> (r: String)
        ensures
            r@ == sentinel_token(old(shared)@.len()),
            final(shared)@ == old(shared)@.push((r@, interpolation(self.text()))),
    {
        shared.add_sentinel(self.raw.as_str())
    }
}

/// A function call expression under construction: the function's name and the
/// arguments given so far.
pub struct Func {
    data: String,
    first: bool,
    name: Ghost<Seq<char>>,
    args: Ghost<Seq<Seq<char>>>,
}

/// The text of a call of `name` on `args`, without its closing parenthesis.
pub open spec fn call_open(name: Seq<char>, args: Seq<Seq<char>>) -> Seq<char> {
    name + "("@ + join(args, ","@)
}

impl Func {
    pub closed spec fn name(&self) -> Seq<char> {
        self.name@
    }

    pub closed spec fn args(&self) -> Seq<Seq<char>> {
        self.args@
    }

    pub closed spec fn wf(&self) -> bool {
        &&& self.data@ == call_open(self.name@, self.args@)
        &&& self.first == (self.args@.len() == 0)
    }

    /// Starts a call of the function `name`.
    pub fn new(name: &str) -> (r: Func)
        ensures
            r.wf(),
            r.name() == name@,
            r.args() == Seq::<Seq<char>>::empty(),
    {
        let mut data = String::from_str(name);
        push_char(&mut data, '(');
        proof {
            reveal_strlit("(");
        }
        assert(data@ =~= call_open(name@, Seq::<Seq<char>>::empty()));
        Func { data, first: true, name: Ghost(name@), args: Ghost(Seq::empty()) }
    }

    /// Adds an argument.
    pub fn a<T>(self, arg: &PrimExpr<T>) -> (r: Func)
        requires
            self.wf(),
        ensures
            r.wf(),
            r.name() == self.name(),
            r.args() == self.args().push(arg.text()),
    {
        let mut f = self;
        let ghost args = f.args@.push(arg.raw@);
        proof {
            reveal_strlit("(");
            reveal_strlit(",");
            assert(args.drop_last() =~= f.args@);
        }
        if !f.first {
            push_char(&mut f.data, ',');
        }
        f.data.append(arg.raw.as_str());
        f.first = false;
        f.args = Ghost(args);
        assert(f.data@ =~= call_open(f.name@, args));
        f
    }

    /// Closes the call; the result is the expression of the call.
    pub fn finish<T>(self) -> (r: PrimExpr<T>)
        requires
            self.wf(),
        ensures
            r.text() == call_open(self.name(), self.args()) + ")"@,
    {
        let mut f = self;
        push_char(&mut f.data, ')');
        proof {
            reveal_strlit(")");
        }
        assert(f.data@ =~= call_open(self.name(), self.args()) + ")"@);
        PrimExpr::new(f.data)
    }
}

} // verus!
