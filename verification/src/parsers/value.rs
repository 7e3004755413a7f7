//! The document model's value tree: a generic tree of scalars, sequences and
//! mappings, with tagged nodes standing for deferred intrinsic functions.
use vstd::prelude::*;

verus! {

/// An exact decimal number: `mant / 10^scale`, negated when `neg` is set.
/// Non-integer numerals of a template are carried in this form so that
/// "numerically equal" is a statement about integers.
#[derive(Clone, Copy, Debug, PartialEq, Eq, Structural)]
pub struct Decimal {
    pub neg: bool,
    pub mant: u64,
    pub scale: u32,
}

/// Largest scale a well-formed `Decimal` may carry; keeps cross-multiplied
/// comparison products inside `u128`.
pub const MAX_SCALE: u32 = 18;

pub open spec fn pow10(e: nat) -> nat
    decreases e,
{
    if e == 0 {
        1
    } else {
        10 * pow10((e - 1) as nat)
    }
}

impl Decimal {
    /// Well-formed decimals keep the scale small enough for exact comparison.
    pub open spec fn wf(self) -> bool {
        self.scale <= MAX_SCALE
    }

    /// The number, scaled up by `10^extra` beyond its own scale, as an integer
    /// magnitude (sign kept separately in `neg`).
    pub open spec fn scaled_mant(self, extra: nat) -> int {
        self.mant * pow10(extra)
    }

    /// Two decimals denote the same number: cross-multiplied magnitudes agree
    /// and the signs agree, except that zero has no sign.
    pub open spec fn num_eq(self, other: Decimal) -> bool {
        &&& self.scaled_mant(other.scale as nat) == other.scaled_mant(self.scale as nat)
        &&& (self.mant == 0 || other.mant == 0 || self.neg == other.neg)
    }

    /// Whether this decimal denotes the integer `n`.
    pub open spec fn denotes_int(self, n: int) -> bool {
        Decimal { neg: n < 0, mant: (if n < 0 { -n } else { n }) as u64, scale: 0 }.num_eq(self)
    }
}

proof fn lemma_pow10_bound(e: nat)
    requires
        e <= 18,
    ensures
        pow10(e) <= pow10(18),
        pow10(18) == 1000000000000000000,
    decreases 18 - e,
{
    reveal_with_fuel(pow10, 19);
    if e < 18 {
        lemma_pow10_bound(e + 1);
    }
}

fn pow10_u64(e: u32) -> (r: u64)
    requires
        e <= MAX_SCALE,
    ensures
        r == pow10(e as nat),
{
    let mut r: u64 = 1;
    let mut i: u32 = 0;
    while i < e
        invariant
            i <= e <= 18,
            r == pow10(i as nat),
        decreases e - i,
    {
        proof {
            lemma_pow10_bound(i as nat + 1);
        }
        r = r * 10;
        i = i + 1;
    }
    r
}

/// Ten to a power never vanishes.
pub proof fn lemma_pow10_pos(e: nat)
    ensures
        pow10(e) >= 1,
    decreases e,
{
    if e > 0 {
        lemma_pow10_pos((e - 1) as nat);
    }
}

/// Unfolding one factor of ten.
pub proof fn lemma_pow10_mono(e: nat)
    ensures
        pow10(e + 1) == 10 * pow10(e),
{
}

/// Compute a power of ten that a well-formed decimal may carry.
pub fn pow10_exec(e: u32) -> (r: u64)
    requires
        e <= MAX_SCALE,
    ensures
        r == pow10(e as nat),
{
    pow10_u64(e)
}

/// Decide whether two well-formed decimals denote the same number.
pub fn dec_num_eq(a: &Decimal, b: &Decimal) -> (r: bool)
    requires
        a.wf(),
        b.wf(),
    ensures
        r == a.num_eq(*b),
{
    let pa = pow10_u64(b.scale);
    let pb = pow10_u64(a.scale);
    proof {
        lemma_pow10_bound(a.scale as nat);
        lemma_pow10_bound(b.scale as nat);
        assert((a.mant as u128) * (pa as u128) == a.scaled_mant(b.scale as nat)) by (nonlinear_arith)
            requires
                pa == pow10(b.scale as nat),
                a.scaled_mant(b.scale as nat) == a.mant * pow10(b.scale as nat),
        ;
        assert((b.mant as u128) * (pb as u128) == b.scaled_mant(a.scale as nat)) by (nonlinear_arith)
            requires
                pb == pow10(a.scale as nat),
                b.scaled_mant(a.scale as nat) == b.mant * pow10(a.scale as nat),
        ;
    }
    proof {
        assert((a.mant as int) * (pa as int) < 0x100000000000000000000000000000000int)
            by (nonlinear_arith)
            requires
                a.mant <= 0xffffffffffffffffu64,
                pa <= 1000000000000000000u64,
        ;
        assert((b.mant as int) * (pb as int) < 0x100000000000000000000000000000000int)
            by (nonlinear_arith)
            requires
                b.mant <= 0xffffffffffffffffu64,
                pb <= 1000000000000000000u64,
        ;
    }
    let ma = (a.mant as u128) * (pa as u128);
    let mb = (b.mant as u128) * (pb as u128);
    ma == mb && (a.mant == 0 || b.mant == 0 || a.neg == b.neg)
}

/// Why a document tree does not decode into the typed records: a required
/// field is missing, or a field or section does not have the shape its place
/// requires. The payload names the field or section.
#[derive(Clone, Copy, Debug, PartialEq, Eq)]
pub enum DecodeError {
    MissingField(&'static str),
    WrongShape(&'static str),
}

impl DecodeError {
    /// The error's one-line description.
    pub open spec fn spec_message(self) -> Seq<char> {
        match self {
            DecodeError::MissingField(f) => "missing required field `"@ + f@ + "`"@,
            DecodeError::WrongShape(f) => "unexpected shape under `"@ + f@ + "`"@,
        }
    }

    /// Say what was malformed.
    pub fn message(&self) -> (r: String)
        ensures
            r@ == self.spec_message(),
    {
        match self {
            DecodeError::MissingField(f) => {
                let mut s = String::new();
                s.append("missing required field `");
                s.append(f);
                s.append("`");
                proof {
                    assert(s@ =~= self.spec_message());
                }
                s
            },
            DecodeError::WrongShape(f) => {
                let mut s = String::new();
                s.append("unexpected shape under `");
                s.append(f);
                s.append("`");
                proof {
                    assert(s@ =~= self.spec_message());
                }
                s
            },
        }
    }
}

/// One node of the document tree. `Tagged` carries an intrinsic-function tag
/// such as `!Ref` together with its argument node.
pub enum Value {
    Null,
    Bool(bool),
    Int(i64),
    Dec(Decimal),
    Str(String),
    List(Vec<Value>),
    Dict(Vec<(String, Value)>),
    Tagged(String, Box<Value>),
}

/// The mathematical shape of a `Value`.
#[verifier::ext_equal]
pub enum ValueView {
    Null,
    Bool(bool),
    Int(i64),
    Dec(Decimal),
    Str(Seq<char>),
    List(Seq<ValueView>),
    Dict(Seq<(Seq<char>, ValueView)>),
    Tagged(Seq<char>, Box<ValueView>),
}

impl DeepView for Value {
    type V = ValueView;

    open spec fn deep_view(&self) -> ValueView
        decreases self,
    {
        match self {
            Value::Null => ValueView::Null,
            Value::Bool(b) => ValueView::Bool(*b),
            Value::Int(i) => ValueView::Int(*i),
            Value::Dec(d) => ValueView::Dec(*d),
            Value::Str(s) => ValueView::Str(s@),
            Value::List(items) => ValueView::List(views_of_values(items@)),
            Value::Dict(entries) => ValueView::Dict(views_of_entries(entries@)),
            Value::Tagged(tag, inner) => ValueView::Tagged(tag@, Box::new((**inner).deep_view())),
        }
    }
}

/// The views of a sequence of nodes, elementwise.
pub open spec fn views_of_values(items: Seq<Value>) -> Seq<ValueView>
    decreases items,
{
    if items.len() == 0 {
        Seq::empty()
    } else {
        views_of_values(items.drop_last()).push(items.last().deep_view())
    }
}

/// The views of a sequence of keyed nodes, elementwise.
pub open spec fn views_of_entries(entries: Seq<(String, Value)>) -> Seq<(Seq<char>, ValueView)>
    decreases entries,
{
    if entries.len() == 0 {
        Seq::empty()
    } else {
        views_of_entries(entries.drop_last()).push(
            (entries.last().0@, entries.last().1.deep_view()),
        )
    }
}

pub broadcast proof fn lemma_views_of_values(items: Seq<Value>)
    ensures
        #[trigger] views_of_values(items).len() == items.len(),
        forall|i: int|
            0 <= i < items.len() ==> views_of_values(items)[i] == items[i].deep_view(),
    decreases items.len(),
{
    if items.len() == 0 {
        assert(views_of_values(items) == Seq::<ValueView>::empty());
    } else {
        lemma_views_of_values(items.drop_last());
        assert(views_of_values(items) == views_of_values(items.drop_last()).push(
            items.last().deep_view(),
        ));
    }
}

pub broadcast proof fn lemma_views_of_entries(entries: Seq<(String, Value)>)
    ensures
        #[trigger] views_of_entries(entries).len() == entries.len(),
        forall|i: int|
            0 <= i < entries.len() ==> views_of_entries(entries)[i] == (
                entries[i].0@,
                entries[i].1.deep_view(),
            ),
    decreases entries.len(),
{
    if entries.len() == 0 {
        assert(views_of_entries(entries) == Seq::<(Seq<char>, ValueView)>::empty());
    } else {
        lemma_views_of_entries(entries.drop_last());
        assert(views_of_entries(entries) == views_of_entries(entries.drop_last()).push(
            (entries.last().0@, entries.last().1.deep_view()),
        ));
    }
}


/// First-match lookup in a keyed sequence, the mathematical reading of every
/// name-to-value table in this crate.
pub open spec fn lookup<V>(m: Seq<(Seq<char>, V)>, k: Seq<char>) -> Option<V>
    decreases m.len(),
{
    if m.len() == 0 {
        None
    } else if m[0].0 == k {
        Some(m[0].1)
    } else {
        lookup(m.drop_first(), k)
    }
}

/// First-match lookup over executable entries, before their values are viewed.
pub open spec fn assoc<V>(m: Seq<(String, V)>, k: Seq<char>) -> Option<V>
    decreases m.len(),
{
    if m.len() == 0 {
        None
    } else if m[0].0@ == k {
        Some(m[0].1)
    } else {
        assoc(m.drop_first(), k)
    }
}


pub proof fn lemma_assoc_skip<V>(m: Seq<(String, V)>, k: Seq<char>, i: int)
    requires
        0 <= i <= m.len(),
        forall|j: int| 0 <= j < i ==> m[j].0@ != k,
    ensures
        assoc(m, k) == assoc(m.skip(i), k),
    decreases i,
{
    if i == 0 {
        assert(m.skip(0) =~= m);
    } else {
        lemma_assoc_skip(m.drop_first(), k, i - 1);
        assert(m.drop_first().skip(i - 1) =~= m.skip(i));
    }
}

/// `assoc` over entries of `Value` agrees with `lookup` over their views.
pub proof fn lemma_assoc_entries(m: Seq<(String, Value)>, k: Seq<char>)
    ensures
        match assoc(m, k) {
            Some(v) => lookup(views_of_entries(m), k) == Some(v.deep_view()),
            None => lookup(views_of_entries(m), k) is None,
        },
    decreases m.len(),
{
    lemma_views_of_entries(m);
    if m.len() > 0 {
        lemma_assoc_entries(m.drop_first(), k);
        lemma_views_of_entries(m.drop_first());
        assert(views_of_entries(m).drop_first() =~= views_of_entries(m.drop_first())) by {
            lemma_views_of_entries(m);
            lemma_views_of_entries(m.drop_first());
        }
    }
}

/// Equality of two string slices, decided by their character sequences.
pub fn str_eq(a: &str, b: &str) -> (r: bool)
    ensures
        r == (a@ == b@),
{
    let sa = a.to_owned();
    let sb = b.to_owned();
    sa == sb
}

/// The entry under `k`, when the node is a mapping that has one.
pub open spec fn vv_get(v: ValueView, k: Seq<char>) -> Option<ValueView> {
    match v {
        ValueView::Dict(entries) => lookup(entries, k),
        _ => None,
    }
}

/// The non-negative integer a node denotes, when it is an integer scalar.
pub open spec fn vv_as_u64(v: ValueView) -> Option<u64> {
    match v {
        ValueView::Int(i) => if i >= 0 {
            Some(i as u64)
        } else {
            None
        },
        _ => None,
    }
}

/// Whether a node denotes the same number as a well-formed decimal: integer
/// and decimal scalars are compared by value, every other node differs.
pub open spec fn vv_num_eq(v: ValueView, d: Decimal) -> bool {
    match v {
        ValueView::Int(i) => d.denotes_int(i as int),
        ValueView::Dec(x) => x.wf() && x.num_eq(d),
        _ => false,
    }
}

impl Value {
    /// The entry under `k`, when this node is a mapping that has one.
    pub open spec fn spec_get(self, k: Seq<char>) -> Option<ValueView> {
        vv_get(self.deep_view(), k)
    }

    /// Look a key up in a mapping node; any other node has no entries.
    pub fn get<'a>(&'a self, key: &str) -> (r: Option<&'a Value>)
        ensures
            match r {
                Some(v) => self.spec_get(key@) == Some(v.deep_view()),
                None => self.spec_get(key@) is None,
            },
    {
        match self {
            Value::Dict(entries) => {
                let r = dict_get(entries, key);
                proof {
                    lemma_assoc_entries(entries@, key@);
                }
                r
            },
            _ => None,
        }
    }

    /// The string under this node, when it is a string scalar.
    pub fn as_str<'a>(&'a self) -> (r: Option<&'a String>)
        ensures
            match r {
                Some(s) => self.deep_view() == ValueView::Str(s@),
                None => !(self.deep_view() is Str),
            },
    {
        match self {
            Value::Str(s) => Some(s),
            _ => None,
        }
    }

    /// The boolean under this node, when it is a boolean scalar.
    pub fn as_bool(&self) -> (r: Option<bool>)
        ensures
            match r {
                Some(b) => self.deep_view() == ValueView::Bool(b),
                None => !(self.deep_view() is Bool),
            },
    {
        match self {
            Value::Bool(b) => Some(*b),
            _ => None,
        }
    }

    /// The non-negative integer under this node. A decimal numeral is not an
    /// integer here, as the checks compare whole-day and whole-count settings.
    pub fn as_u64(&self) -> (r: Option<u64>)
        ensures
            r == self.spec_as_u64(),
    {
        match self {
            Value::Int(i) => {
                if *i >= 0 {
                    Some(*i as u64)
                } else {
                    None
                }
            },
            _ => None,
        }
    }

    pub open spec fn spec_as_u64(self) -> Option<u64> {
        vv_as_u64(self.deep_view())
    }

    /// Whether this node denotes the same number as a well-formed decimal:
    /// integer and decimal scalars are compared by value, every other node
    /// differs.
    pub open spec fn spec_num_eq(self, d: Decimal) -> bool {
        vv_num_eq(self.deep_view(), d)
    }

    pub fn num_eq(&self, d: &Decimal) -> (r: bool)
        requires
            d.wf(),
    ensures
            r == self.spec_num_eq(*d),
    {
        match self {
            Value::Int(i) => {
                let neg = *i < 0;
                let mant: u64 = if *i < 0 {
                    (-(*i as i128)) as u64
                } else {
                    *i as u64
                };
                dec_num_eq(&Decimal { neg, mant, scale: 0 }, d)
            },
            Value::Dec(x) => x.scale <= MAX_SCALE && dec_num_eq(x, d),
            _ => false,
        }
    }
}

/// First-match lookup in mapping entries.
pub fn dict_get<'a>(entries: &'a Vec<(String, Value)>, key: &str) -> (r: Option<&'a Value>)
    ensures
        match r {
            Some(v) => lookup(views_of_entries(entries@), key@) == Some(v.deep_view()),
            None => lookup(views_of_entries(entries@), key@) is None,
        },
{
    let mut i: usize = 0;
    while i < entries.len()
        invariant
            i <= entries.len(),
            forall|j: int| 0 <= j < i ==> entries@[j].0@ != key@,
        decreases entries.len() - i,
    {
        if str_eq(entries[i].0.as_str(), key) {
            proof {
                lemma_assoc_skip(entries@, key@, i as int);
                assert(entries@.skip(i as int)[0] == entries@[i as int]);
                lemma_assoc_entries(entries@, key@);
            }
            return Some(&entries[i].1);
        }
        i = i + 1;
    }
    proof {
        lemma_assoc_skip(entries@, key@, entries@.len() as int);
        assert(entries@.skip(entries@.len() as int) =~= Seq::<(String, Value)>::empty());
        lemma_assoc_entries(entries@, key@);
    }
    None
}


/// The views of a keyed sequence whose values are viewed by `vw`.
pub open spec fn keyed_views<V, W>(m: Seq<(String, V)>, vw: spec_fn(V) -> W) -> Seq<
    (Seq<char>, W),
> {
    Seq::new(m.len(), |i: int| (m[i].0@, vw(m[i].1)))
}

/// `assoc` over entries agrees with `lookup` over their keyed views.
pub proof fn lemma_assoc_keyed_views<V, W>(m: Seq<(String, V)>, vw: spec_fn(V) -> W, k: Seq<char>)
    ensures
        match assoc(m, k) {
            Some(v) => lookup(keyed_views(m, vw), k) == Some(vw(v)),
            None => lookup(keyed_views(m, vw), k) is None,
        },
    decreases m.len(),
{
    if m.len() > 0 {
        lemma_assoc_keyed_views(m.drop_first(), vw, k);
        assert(keyed_views(m, vw).drop_first() =~= keyed_views(m.drop_first(), vw));
    }
}

/// First-match lookup in any keyed vector.
pub fn assoc_get<'a, V>(entries: &'a Vec<(String, V)>, key: &str) -> (r: Option<&'a V>)
    ensures
        match r {
            Some(v) => assoc(entries@, key@) == Some(*v),
            None => assoc(entries@, key@) is None,
        },
{
    let mut i: usize = 0;
    while i < entries.len()
        invariant
            i <= entries.len(),
            forall|j: int| 0 <= j < i ==> entries@[j].0@ != key@,
        decreases entries.len() - i,
    {
        if str_eq(entries[i].0.as_str(), key) {
            proof {
                lemma_assoc_skip(entries@, key@, i as int);
                assert(entries@.skip(i as int)[0] == entries@[i as int]);
            }
            return Some(&entries[i].1);
        }
        i = i + 1;
    }
    proof {
        lemma_assoc_skip(entries@, key@, entries@.len() as int);
        assert(entries@.skip(entries@.len() as int) =~= Seq::<(String, V)>::empty());
    }
    None
}


/// Duplicate mapping entries; the copy denotes the same table.
pub fn clone_entries(entries: &Vec<(String, Value)>) -> (r: Vec<(String, Value)>)
    ensures
        views_of_entries(r@) == views_of_entries(entries@),
{
    let mut out: Vec<(String, Value)> = Vec::new();
    let mut i: usize = 0;
    while i < entries.len()
        invariant
            i <= entries.len(),
            out@.len() == i,
            forall|j: int|
                0 <= j < i ==> out@[j].0@ == entries@[j].0@ && out@[j].1.deep_view()
                    == entries@[j].1.deep_view(),
        decreases entries.len() - i,
    {
        out.push((entries[i].0.clone(), entries[i].1.clone()));
        i = i + 1;
    }
    proof {
        lemma_views_of_entries(out@);
        lemma_views_of_entries(entries@);
        assert(views_of_entries(out@) =~= views_of_entries(entries@));
    }
    out
}

impl Clone for Value {
    /// A clone denotes the same tree.
    fn clone(&self) -> (res: Self)
        ensures
            res.deep_view() == self.deep_view(),
        decreases self,
    {
        match self {
            Value::Null => Value::Null,
            Value::Bool(b) => Value::Bool(*b),
            Value::Int(i) => Value::Int(*i),
            Value::Dec(d) => Value::Dec(*d),
            Value::Str(s) => Value::Str(s.clone()),
            Value::List(items) => {
                let mut out: Vec<Value> = Vec::new();
                let mut i: usize = 0;
                while i < items.len()
                    invariant
                        *self == Value::List(*items),
                        i <= items.len(),
                        out@.len() == i,
                        forall|j: int|
                            0 <= j < i ==> out@[j].deep_view() == items@[j].deep_view(),
                    decreases items.len() - i,
                {
                    proof {
                        assert(decreases_to!(*self => self->List_0));
                        assert(decreases_to!(*items => items@));
                        assert(decreases_to!(items@ => items@[i as int]));
                    }
                    out.push(items[i].clone());
                    i = i + 1;
                }
                proof {
                    lemma_views_of_values(out@);
                    lemma_views_of_values(items@);
                    assert(views_of_values(out@) =~= views_of_values(items@));
                }
                Value::List(out)
            },
            Value::Dict(entries) => {
                let mut out: Vec<(String, Value)> = Vec::new();
                let mut i: usize = 0;
                while i < entries.len()
                    invariant
                        *self == Value::Dict(*entries),
                        i <= entries.len(),
                        out@.len() == i,
                        forall|j: int|
                            0 <= j < i ==> out@[j].0@ == entries@[j].0@ && out@[j].1.deep_view()
                                == entries@[j].1.deep_view(),
                    decreases entries.len() - i,
                {
                    proof {
                        assert(decreases_to!(*self => self->Dict_0));
                        assert(decreases_to!(*entries => entries@));
                        assert(decreases_to!(entries@ => entries@[i as int]));
                        assert(decreases_to!(entries@[i as int] => entries@[i as int].1));
                    }
                    out.push((entries[i].0.clone(), entries[i].1.clone()));
                    i = i + 1;
                }
                proof {
                    lemma_views_of_entries(out@);
                    lemma_views_of_entries(entries@);
                    assert(views_of_entries(out@) =~= views_of_entries(entries@));
                }
                Value::Dict(out)
            },
            Value::Tagged(tag, inner) => Value::Tagged(tag.clone(), Box::new((**inner).clone())),
        }
    }
}

} // verus!
