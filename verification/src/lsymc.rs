//! The value representation: a tagged union that is at once the abstract
//! syntax tree produced by the parser and the runtime value produced by the
//! evaluator (the tree is self-evaluating).

use vstd::prelude::*;

verus! {

/// A node of the expression tree and, equally, a runtime value.
///
/// Keyword and operator tags (`Def`, `Plus`, ...) double as syntax markers
/// and as the evaluator's dispatch key. A `List` holds its children in
/// order; once built it is never changed in place. A `Float` holds the
/// decimal literal exactly as it stood in the source: this library does no
/// floating-point arithmetic, so the text is the value.
#[derive(Debug, PartialEq)]
pub enum Lsymc {
    Nil,
    Def,
    Defn,
    Int(i64),
    Float(String),
    Plus,
    Minus,
    Astrisk,
    Slash,
    LT,
    GT,
    Equal,
    NotEqual,
    If,
    Else,
    List(Vec<Lsymc>),
    Bool(bool),
    Ident(String),
    String(String),
}

/// The mathematical model of a value: the same tree over `Seq` and plain
/// values. Every contract of this library speaks of values through it.
pub enum SymV {
    Nil,
    Def,
    Defn,
    Int(i64),
    Float(Seq<char>),
    Plus,
    Minus,
    Astrisk,
    Slash,
    LT,
    GT,
    Equal,
    NotEqual,
    If,
    Else,
    List(Seq<SymV>),
    Bool(bool),
    Ident(Seq<char>),
    String(Seq<char>),
}

/// The model of one value; mutually recursive with [`sym_seq`].
pub open spec fn sym_of(v: Lsymc) -> SymV
    decreases v,
{
    match v {
        Lsymc::Nil => SymV::Nil,
        Lsymc::Def => SymV::Def,
        Lsymc::Defn => SymV::Defn,
        Lsymc::Int(i) => SymV::Int(i),
        Lsymc::Float(t) => SymV::Float(t@),
        Lsymc::Plus => SymV::Plus,
        Lsymc::Minus => SymV::Minus,
        Lsymc::Astrisk => SymV::Astrisk,
        Lsymc::Slash => SymV::Slash,
        Lsymc::LT => SymV::LT,
        Lsymc::GT => SymV::GT,
        Lsymc::Equal => SymV::Equal,
        Lsymc::NotEqual => SymV::NotEqual,
        Lsymc::If => SymV::If,
        Lsymc::Else => SymV::Else,
        Lsymc::List(items) => SymV::List(sym_seq(items@)),
        Lsymc::Bool(b) => SymV::Bool(b),
        Lsymc::Ident(s) => SymV::Ident(s@),
        Lsymc::String(s) => SymV::String(s@),
    }
}

/// The models of a sequence of values, in order.
pub open spec fn sym_seq(items: Seq<Lsymc>) -> Seq<SymV>
    decreases items,
{
    if items.len() == 0 {
        Seq::empty()
    } else {
        seq![sym_of(items[0])] + sym_seq(items.drop_first())
    }
}

/// `sym_seq` maps the models pointwise.
pub proof fn lemma_sym_seq(items: Seq<Lsymc>)
    ensures
        sym_seq(items).len() == items.len(),
        forall|i: int| 0 <= i < items.len() ==> sym_seq(items)[i] == sym_of(#[trigger] items[i]),
    decreases items.len(),
{
    if items.len() > 0 {
        lemma_sym_seq(items.drop_first());
        assert forall|i: int| 0 <= i < items.len() implies sym_seq(items)[i] == sym_of(
            #[trigger] items[i],
        ) by {
            if i > 0 {
                assert(items.drop_first()[i - 1] == items[i]);
                assert(sym_seq(items)[i] == sym_seq(items.drop_first())[i - 1]);
            }
        }
    }
}

/// Appending one value appends its model.
pub proof fn lemma_sym_seq_push(s: Seq<Lsymc>, v: Lsymc)
    ensures
        sym_seq(s.push(v)) == sym_seq(s).push(sym_of(v)),
{
    lemma_sym_seq(s.push(v));
    lemma_sym_seq(s);
    assert forall|i: int| 0 <= i < s.push(v).len() implies sym_seq(s.push(v))[i] == sym_seq(
        s,
    ).push(sym_of(v))[i] by {
        if i < s.len() {
            assert(s.push(v)[i] == s[i]);
        } else {
            assert(s.push(v)[i] == v);
        }
    }
    assert(sym_seq(s.push(v)) =~= sym_seq(s).push(sym_of(v)));
}

impl View for Lsymc {
    type V = SymV;

    open spec fn view(&self) -> SymV {
        sym_of(*self)
    }
}

impl Clone for Lsymc {
    /// A clone is a deep copy: it has the same model.
    fn clone(&self) -> (r: Self)
        ensures
            r@ == self@,
        decreases self,
    {
        match self {
            Lsymc::Nil => Lsymc::Nil,
            Lsymc::Def => Lsymc::Def,
            Lsymc::Defn => Lsymc::Defn,
            Lsymc::Int(i) => Lsymc::Int(*i),
            Lsymc::Float(t) => Lsymc::Float(t.clone()),
            Lsymc::Plus => Lsymc::Plus,
            Lsymc::Minus => Lsymc::Minus,
            Lsymc::Astrisk => Lsymc::Astrisk,
            Lsymc::Slash => Lsymc::Slash,
            Lsymc::LT => Lsymc::LT,
            Lsymc::GT => Lsymc::GT,
            Lsymc::Equal => Lsymc::Equal,
            Lsymc::NotEqual => Lsymc::NotEqual,
            Lsymc::If => Lsymc::If,
            Lsymc::Else => Lsymc::Else,
            Lsymc::List(items) => {
                let mut copied: Vec<Lsymc> = Vec::new();
                let mut k: usize = 0;
                #[verifier::loop_isolation(false)]
                while k < items.len()
                    invariant
                        k <= items.len(),
                        copied@.len() == k,
                        forall|j: int| 0 <= j < k ==> copied@[j]@ == items@[j]@,
                    decreases items.len() - k,
                {
                    copied.push(items[k].clone());
                    k = k + 1;
                }
                let r = Lsymc::List(copied);
                proof {
                    lemma_sym_seq(copied@);
                    lemma_sym_seq(items@);
                    assert forall|j: int| 0 <= j < items@.len() implies sym_seq(copied@)[j]
                        == sym_seq(items@)[j] by {
                        assert(copied@[j]@ == items@[j]@);
                    }
                    assert(sym_seq(copied@) =~= sym_seq(items@));
                }
                r
            },
            Lsymc::Bool(b) => Lsymc::Bool(*b),
            Lsymc::Ident(s) => Lsymc::Ident(s.clone()),
            Lsymc::String(s) => Lsymc::String(s.clone()),
        }
    }
}

/// The decimal digit for a value below ten.
pub open spec fn digit_char_spec(d: int) -> char {
    if d == 0 { '0' }
    else if d == 1 { '1' }
    else if d == 2 { '2' }
    else if d == 3 { '3' }
    else if d == 4 { '4' }
    else if d == 5 { '5' }
    else if d == 6 { '6' }
    else if d == 7 { '7' }
    else if d == 8 { '8' }
    else { '9' }
}

/// The decimal rendering of a non-negative integer, most significant digit
/// first, with no leading zeros (a single `'0'` for zero).
pub open spec fn dec_str_nat(n: int) -> Seq<char>
    decreases n,
{
    if n < 10 {
        seq![digit_char_spec(n)]
    } else {
        dec_str_nat(n / 10) + seq![digit_char_spec(n % 10)]
    }
}

/// The decimal rendering of a signed integer.
pub open spec fn dec_str_int(i: int) -> Seq<char> {
    if i >= 0 {
        dec_str_nat(i)
    } else {
        seq!['-'] + dec_str_nat(-i)
    }
}

fn digit_char(d: u64) -> (c: char)
    requires
        d < 10,
    ensures
        c == digit_char_spec(d as int),
{
    if d == 0 { '0' }
    else if d == 1 { '1' }
    else if d == 2 { '2' }
    else if d == 3 { '3' }
    else if d == 4 { '4' }
    else if d == 5 { '5' }
    else if d == 6 { '6' }
    else if d == 7 { '7' }
    else if d == 8 { '8' }
    else { '9' }
}

fn dec_chars_u64(n: u64) -> (r: Vec<char>)
    ensures
        r@ == dec_str_nat(n as int),
    decreases n,
{
    if n < 10 {
        let mut r: Vec<char> = Vec::new();
        r.push(digit_char(n));
        proof {
            assert(r@ =~= dec_str_nat(n as int));
        }
        r
    } else {
        let mut r = dec_chars_u64(n / 10);
        r.push(digit_char(n % 10));
        proof {
            assert(r@ =~= dec_str_nat(n as int));
        }
        r
    }
}

/// Renders a signed machine integer in decimal, as [`dec_str_int`] states.
pub fn int_to_chars(i: i64) -> (r: Vec<char>)
    ensures
        r@ == dec_str_int(i as int),
{
    if i >= 0 {
        dec_chars_u64(i as u64)
    } else {
        let mag: u64 = if i == i64::MIN {
            9223372036854775808u64
        } else {
            (-i) as u64
        };
        let digits = dec_chars_u64(mag);
        let mut r: Vec<char> = Vec::new();
        r.push('-');
        let mut k: usize = 0;
        while k < digits.len()
            invariant
                k <= digits.len(),
                digits@ == dec_str_nat(mag as int),
                mag == -(i as int),
                r@ == seq!['-'] + digits@.take(k as int),
            decreases digits.len() - k,
        {
            r.push(digits[k]);
            k = k + 1;
            proof {
                assert(r@ =~= seq!['-'] + digits@.take(k as int));
            }
        }
        proof {
            assert(digits@.take(digits@.len() as int) =~= digits@);
        }
        r
    }
}

/// Relies on str::chars: the characters of a string slice, in order; the
/// view of a `&str` is exactly that character sequence.
#[verifier::external_body]
pub(crate) fn str_chars(s: &str) -> (r: Vec<char>)
    ensures
        r@ == s@,
{
    s.chars().collect()
}

/// Relies on String's FromIterator over chars: collecting characters gives
/// the string whose view is that character sequence.
#[verifier::external_body]
pub(crate) fn chars_string(v: &Vec<char>) -> (r: String)
    ensures
        r@ == v@,
{
    v.iter().collect()
}

/// The canonical text of a value: keyword and operator tags render as their
/// source spelling, atoms as their content, and a list as its members'
/// renderings joined by commas between square brackets.
pub open spec fn render_spec(v: SymV) -> Seq<char>
    decreases v,
{
    match v {
        SymV::Nil => "nil"@,
        SymV::Def => "def"@,
        SymV::Defn => "defn"@,
        SymV::Int(i) => dec_str_int(i as int),
        SymV::Float(t) => t,
        SymV::Plus => "+"@,
        SymV::Minus => "-"@,
        SymV::Astrisk => "*"@,
        SymV::Slash => "/"@,
        SymV::LT => "<"@,
        SymV::GT => ">"@,
        SymV::Equal => "="@,
        SymV::NotEqual => "!"@,
        SymV::If => "if"@,
        SymV::Else => "else"@,
        SymV::List(items) => seq!['['] + join_render_spec(items, ',') + seq![']'],
        SymV::Bool(b) => if b {
            "true"@
        } else {
            "false"@
        },
        SymV::Ident(s) => s,
        SymV::String(s) => s,
    }
}

/// The members' renderings joined by the separator.
pub open spec fn join_render_spec(items: Seq<SymV>, sep: char) -> Seq<char>
    decreases items,
{
    if items.len() == 0 {
        Seq::empty()
    } else if items.len() == 1 {
        render_spec(items[0])
    } else {
        join_render_spec(items.drop_last(), sep) + seq![sep] + render_spec(items.last())
    }
}

/// One step of the join: rendering one more member appends the separator
/// (after the first member) and that member's rendering.
proof fn lemma_join_render_take(s: Seq<SymV>, sep: char, j: int)
    requires
        0 <= j < s.len(),
    ensures
        join_render_spec(s.take(j + 1), sep) == if j == 0 {
            render_spec(s[0])
        } else {
            join_render_spec(s.take(j), sep) + seq![sep] + render_spec(s[j])
        },
{
    let t = s.take(j + 1);
    assert(t.last() == s[j]);
    assert(t.drop_last() =~= s.take(j));
}

/// The members' renderings joined by the separator, as
/// [`join_render_spec`] states.
pub fn join_render(items: &Vec<Lsymc>, sep: char) -> (r: Vec<char>)
    ensures
        r@ == join_render_spec(sym_seq(items@), sep),
    decreases *items,
{
    let mut acc: Vec<char> = Vec::new();
    let ghost models = sym_seq(items@);
    proof {
        lemma_sym_seq(items@);
    }
    let mut k: usize = 0;
    #[verifier::loop_isolation(false)]
    while k < items.len()
        invariant
            k <= items.len(),
            acc@ == join_render_spec(models.take(k as int), sep),
        decreases items.len() - k,
    {
        if k > 0 {
            acc.push(sep);
        }
        let mut piece = items[k].render_chars();
        acc.append(&mut piece);
        proof {
            lemma_join_render_take(models, sep, k as int);
        }
        k = k + 1;
    }
    proof {
        assert(models.take(models.len() as int) =~= models);
    }
    acc
}

impl Lsymc {
    /// The canonical text of this value, as [`render_spec`] states.
    pub fn render(&self) -> (r: String)
        ensures
            r@ == render_spec(self@),
    {
        let chars = self.render_chars();
        chars_string(&chars)
    }

    fn render_chars(&self) -> (r: Vec<char>)
        ensures
            r@ == render_spec(self@),
        decreases self,
    {
        match self {
            Lsymc::Nil => str_chars("nil"),
            Lsymc::Def => str_chars("def"),
            Lsymc::Defn => str_chars("defn"),
            Lsymc::Int(i) => int_to_chars(*i),
            Lsymc::Float(t) => str_chars(t.as_str()),
            Lsymc::Plus => str_chars("+"),
            Lsymc::Minus => str_chars("-"),
            Lsymc::Astrisk => str_chars("*"),
            Lsymc::Slash => str_chars("/"),
            Lsymc::LT => str_chars("<"),
            Lsymc::GT => str_chars(">"),
            Lsymc::Equal => str_chars("="),
            Lsymc::NotEqual => str_chars("!"),
            Lsymc::If => str_chars("if"),
            Lsymc::Else => str_chars("else"),
            Lsymc::List(items) => {
                let mut acc: Vec<char> = Vec::new();
                acc.push('[');
                let mut joined = join_render(items, ',');
                acc.append(&mut joined);
                acc.push(']');
                acc
            },
            Lsymc::Bool(b) => if *b {
                str_chars("true")
            } else {
                str_chars("false")
            },
            Lsymc::Ident(s) => str_chars(s.as_str()),
            Lsymc::String(s) => str_chars(s.as_str()),
        }
    }
}

} // verus!
