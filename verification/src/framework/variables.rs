//! The variables of expressions, and reproducible values for them.

use vstd::prelude::*;

use crate::fields::m31::M31;
use crate::fields::qm31::QM31;
use crate::framework::column_map::ColumnMap;
use crate::framework::expr::{
    from_coords, BaseExpr, ColumnExpr, ExprVarAssignment, ExtExpr,
    PreProcessedColumnId,
};
use crate::framework::names::NameMap;
use crate::vcs::blake2s::{blake2s_s, blake2s_words, output_s};

verus! {

impl BaseExpr {
    pub open spec fn uses_column(self, c: ColumnExpr) -> bool
        decreases self,
    {
        match self {
            BaseExpr::Col(x) => x == c,
            BaseExpr::Add(a, b) => a.uses_column(c) || b.uses_column(c),
            BaseExpr::Sub(a, b) => a.uses_column(c) || b.uses_column(c),
            BaseExpr::Mul(a, b) => a.uses_column(c) || b.uses_column(c),
            BaseExpr::Neg(a) => a.uses_column(c),
            BaseExpr::Inv(a) => a.uses_column(c),
            _ => false,
        }
    }

    pub open spec fn uses_param(self, n: Seq<char>) -> bool
        decreases self,
    {
        match self {
            BaseExpr::Param(x) => x@ == n,
            BaseExpr::Add(a, b) => a.uses_param(n) || b.uses_param(n),
            BaseExpr::Sub(a, b) => a.uses_param(n) || b.uses_param(n),
            BaseExpr::Mul(a, b) => a.uses_param(n) || b.uses_param(n),
            BaseExpr::Neg(a) => a.uses_param(n),
            BaseExpr::Inv(a) => a.uses_param(n),
            _ => false,
        }
    }

    pub open spec fn uses_preprocessed(self, n: Seq<char>) -> bool
        decreases self,
    {
        match self {
            BaseExpr::PreprocessedColumn(x) => x.id.id@ == n,
            BaseExpr::Add(a, b) => a.uses_preprocessed(n) || b.uses_preprocessed(n),
            BaseExpr::Sub(a, b) => a.uses_preprocessed(n) || b.uses_preprocessed(n),
            BaseExpr::Mul(a, b) => a.uses_preprocessed(n) || b.uses_preprocessed(n),
            BaseExpr::Neg(a) => a.uses_preprocessed(n),
            BaseExpr::Inv(a) => a.uses_preprocessed(n),
            _ => false,
        }
    }
}

impl ExtExpr {
    pub open spec fn uses_column(self, c: ColumnExpr) -> bool
        decreases self,
    {
        match self {
            ExtExpr::SecureCol(x, y, z, w) => x.uses_column(c) || y.uses_column(c) || z.uses_column(
                c,
            ) || w.uses_column(c),
            ExtExpr::Add(a, b) => a.uses_column(c) || b.uses_column(c),
            ExtExpr::Sub(a, b) => a.uses_column(c) || b.uses_column(c),
            ExtExpr::Mul(a, b) => a.uses_column(c) || b.uses_column(c),
            ExtExpr::Neg(a) => a.uses_column(c),
            _ => false,
        }
    }

    pub open spec fn uses_param(self, n: Seq<char>) -> bool
        decreases self,
    {
        match self {
            ExtExpr::SecureCol(x, y, z, w) => x.uses_param(n) || y.uses_param(n) || z.uses_param(n)
                || w.uses_param(n),
            ExtExpr::Add(a, b) => a.uses_param(n) || b.uses_param(n),
            ExtExpr::Sub(a, b) => a.uses_param(n) || b.uses_param(n),
            ExtExpr::Mul(a, b) => a.uses_param(n) || b.uses_param(n),
            ExtExpr::Neg(a) => a.uses_param(n),
            _ => false,
        }
    }

    pub open spec fn uses_ext_param(self, n: Seq<char>) -> bool
        decreases self,
    {
        match self {
            ExtExpr::Param(x) => x@ == n,
            ExtExpr::Add(a, b) => a.uses_ext_param(n) || b.uses_ext_param(n),
            ExtExpr::Sub(a, b) => a.uses_ext_param(n) || b.uses_ext_param(n),
            ExtExpr::Mul(a, b) => a.uses_ext_param(n) || b.uses_ext_param(n),
            ExtExpr::Neg(a) => a.uses_ext_param(n),
            _ => false,
        }
    }

    pub open spec fn uses_preprocessed(self, n: Seq<char>) -> bool
        decreases self,
    {
        match self {
            ExtExpr::SecureCol(x, y, z, w) => x.uses_preprocessed(n) || y.uses_preprocessed(n)
                || z.uses_preprocessed(n) || w.uses_preprocessed(n),
            ExtExpr::Add(a, b) => a.uses_preprocessed(n) || b.uses_preprocessed(n),
            ExtExpr::Sub(a, b) => a.uses_preprocessed(n) || b.uses_preprocessed(n),
            ExtExpr::Mul(a, b) => a.uses_preprocessed(n) || b.uses_preprocessed(n),
            ExtExpr::Neg(a) => a.uses_preprocessed(n),
            _ => false,
        }
    }
}

pub open spec fn has_name(names: Seq<String>, n: Seq<char>) -> bool {
    exists|i: int| 0 <= i < names.len() && (#[trigger] names[i])@ == n
}

fn insert_name(names: &mut Vec<String>, name: &String)
    ensures
        forall|n: Seq<char>|
            #[trigger] has_name(final(names)@, n) <==> has_name(old(names)@, n) || n == name@,
{
    let ghost before = names@;
    let mut i: usize = 0;
    while i < names.len()
        invariant
            i <= names@.len(),
            names@ == before,
            forall|j: int| 0 <= j < i ==> (#[trigger] names@[j])@ != name@,
        decreases names@.len() - i,
    {
        if names[i] == *name {
            assert(has_name(names@, name@));
            return ;
        }
        i += 1;
    }
    names.push(name.clone());
    proof {
        let after = names@;
        assert(after.last()@ == name@);
        assert(after[before.len() as int]@ == name@);
        assert forall|n: Seq<char>| #[trigger] has_name(after, n) <==> has_name(before, n) || n
            == name@ by {
            if has_name(before, n) {
                let j = choose|j: int| 0 <= j < before.len() && (#[trigger] before[j])@ == n;
                assert(after[j]@ == n);
            }
            if has_name(after, n) {
                let j = choose|j: int| 0 <= j < after.len() && (#[trigger] after[j])@ == n;
                if j < before.len() {
                    assert(before[j]@ == n);
                }
            }
        }
    }
}

/// The variables of a collection of expressions.
#[derive(Clone, Debug)]
pub struct ExprVariables {
    pub cols: Vec<ColumnExpr>,
    pub params: Vec<String>,
    pub ext_params: Vec<String>,
    pub preprocessed_cols: Vec<String>,
}

impl ExprVariables {
    pub open spec fn has_column(self, c: ColumnExpr) -> bool {
        self.cols@.contains(c)
    }

    pub open spec fn has_param(self, n: Seq<char>) -> bool {
        has_name(self.params@, n)
    }

    pub open spec fn has_ext_param(self, n: Seq<char>) -> bool {
        has_name(self.ext_params@, n)
    }

    pub open spec fn has_preprocessed(self, n: Seq<char>) -> bool {
        has_name(self.preprocessed_cols@, n)
    }

    pub fn new() -> (r: ExprVariables)
        ensures
            forall|c: ColumnExpr| !#[trigger] r.has_column(c),
            forall|n: Seq<char>| !#[trigger] r.has_param(n),
            forall|n: Seq<char>| !#[trigger] r.has_ext_param(n),
            forall|n: Seq<char>| !#[trigger] r.has_preprocessed(n),
    {
        ExprVariables {
            cols: Vec::new(),
            params: Vec::new(),
            ext_params: Vec::new(),
            preprocessed_cols: Vec::new(),
        }
    }

    /// Whether a preprocessed column is among the variables.
    pub fn contains_preprocessed(&self, id: &PreProcessedColumnId) -> (r: bool)
        ensures
            r == self.has_preprocessed(id.id@),
    {
        let mut i: usize = 0;
        while i < self.preprocessed_cols.len()
            invariant
                i <= self.preprocessed_cols@.len(),
                forall|j: int| 0 <= j < i ==> (#[trigger] self.preprocessed_cols@[j])@ != id.id@,
            decreases self.preprocessed_cols@.len() - i,
        {
            if self.preprocessed_cols[i] == id.id {
                return true;
            }
            i += 1;
        }
        false
    }

    fn insert_column(&mut self, c: ColumnExpr)
        ensures
            forall|x: ColumnExpr|
                #[trigger] final(self).has_column(x) <==> old(self).has_column(x) || x == c,
            final(self).params == old(self).params,
            final(self).ext_params == old(self).ext_params,
            final(self).preprocessed_cols == old(self).preprocessed_cols,
    {
        let ghost before = self.cols@;
        let mut i: usize = 0;
        while i < self.cols.len()
            invariant
                i <= self.cols@.len(),
                self.cols@ == before,
                *self == *old(self),
            decreases self.cols@.len() - i,
        {
            if self.cols[i] == c {
                assert(before.contains(c));
                return ;
            }
            i += 1;
        }
        self.cols.push(c);
        proof {
            let after = self.cols@;
            assert(after[before.len() as int] == c);
            assert forall|x: ColumnExpr| #[trigger] self.has_column(x) <==> before.contains(x) || x
                == c by {
                if before.contains(x) {
                    let j = choose|j: int| 0 <= j < before.len() && before[j] == x;
                    assert(after[j] == x);
                }
            }
        }
    }

    /// Adds the variables of a base expression.
    pub fn add_base(&mut self, e: &BaseExpr)
        ensures
            forall|c: ColumnExpr|
                #[trigger] final(self).has_column(c) <==> old(self).has_column(c) || e.uses_column(
                    c,
                ),
            forall|n: Seq<char>|
                #[trigger] final(self).has_param(n) <==> old(self).has_param(n) || e.uses_param(n),
            forall|n: Seq<char>|
                #[trigger] final(self).has_preprocessed(n) <==> old(self).has_preprocessed(n)
                    || e.uses_preprocessed(n),
            forall|n: Seq<char>|
                #[trigger] final(self).has_ext_param(n) <==> old(self).has_ext_param(n),
        decreases e,
    {
        match e {
            BaseExpr::Col(c) => self.insert_column(*c),
            BaseExpr::PreprocessedColumn(p) => insert_name(&mut self.preprocessed_cols, &p.id.id),
            BaseExpr::Const(_) => {},
            BaseExpr::Param(name) => insert_name(&mut self.params, name),
            BaseExpr::Add(a, b) => {
                self.add_base(a);
                self.add_base(b);
            },
            BaseExpr::Sub(a, b) => {
                self.add_base(a);
                self.add_base(b);
            },
            BaseExpr::Mul(a, b) => {
                self.add_base(a);
                self.add_base(b);
            },
            BaseExpr::Neg(a) => self.add_base(a),
            BaseExpr::Inv(a) => self.add_base(a),
        }
    }

    /// Adds the variables of an expression.
    pub fn add_ext(&mut self, e: &ExtExpr)
        ensures
            forall|c: ColumnExpr|
                #[trigger] final(self).has_column(c) <==> old(self).has_column(c) || e.uses_column(
                    c,
                ),
            forall|n: Seq<char>|
                #[trigger] final(self).has_param(n) <==> old(self).has_param(n) || e.uses_param(n),
            forall|n: Seq<char>|
                #[trigger] final(self).has_preprocessed(n) <==> old(self).has_preprocessed(n)
                    || e.uses_preprocessed(n),
            forall|n: Seq<char>|
                #[trigger] final(self).has_ext_param(n) <==> old(self).has_ext_param(n)
                    || e.uses_ext_param(n),
        decreases e,
    {
        match e {
            ExtExpr::SecureCol(a, b, c, d) => {
                self.add_base(a);
                self.add_base(b);
                self.add_base(c);
                self.add_base(d);
            },
            ExtExpr::Const(_) => {},
            ExtExpr::Param(name) => insert_name(&mut self.ext_params, name),
            ExtExpr::Add(a, b) => {
                self.add_ext(a);
                self.add_ext(b);
            },
            ExtExpr::Sub(a, b) => {
                self.add_ext(a);
                self.add_ext(b);
            },
            ExtExpr::Mul(a, b) => {
                self.add_ext(a);
                self.add_ext(b);
            },
            ExtExpr::Neg(a) => self.add_ext(a),
        }
    }
}

impl BaseExpr {
    /// The variables of the expression.
    pub fn collect_variables(&self) -> (r: ExprVariables)
        ensures
            forall|c: ColumnExpr| #[trigger] r.has_column(c) <==> self.uses_column(c),
            forall|n: Seq<char>| #[trigger] r.has_param(n) <==> self.uses_param(n),
            forall|n: Seq<char>| #[trigger] r.has_preprocessed(n) <==> self.uses_preprocessed(n),
            forall|n: Seq<char>| !#[trigger] r.has_ext_param(n),
    {
        let mut r = ExprVariables::new();
        r.add_base(self);
        r
    }
}

impl ExtExpr {
    /// The variables of the expression.
    pub fn collect_variables(&self) -> (r: ExprVariables)
        ensures
            forall|c: ColumnExpr| #[trigger] r.has_column(c) <==> self.uses_column(c),
            forall|n: Seq<char>| #[trigger] r.has_param(n) <==> self.uses_param(n),
            forall|n: Seq<char>| #[trigger] r.has_preprocessed(n) <==> self.uses_preprocessed(n),
            forall|n: Seq<char>| #[trigger] r.has_ext_param(n) <==> self.uses_ext_param(n),
    {
        let mut r = ExprVariables::new();
        r.add_ext(self);
        r
    }
}

/// The tags that keep the kinds of variables apart.
pub const TAG_COLUMN: u32 = 0;

pub const TAG_PARAM: u32 = 1;

pub const TAG_EXT_PARAM: u32 = 2;

pub const TAG_PREPROCESSED: u32 = 3;

/// The words that identify a name.
pub open spec fn name_words(salt: u32, tag: u32, name: Seq<char>) -> Seq<u32> {
    seq![salt, tag] + name.map_values(|c: char| c as u32)
}

/// The base element drawn from words.
pub open spec fn drawn_base(words: Seq<u32>) -> M31 {
    M31(output_s(blake2s_s(words), true)[0])
}

/// The secure element drawn from words.
pub open spec fn drawn_ext(words: Seq<u32>) -> QM31 {
    let d = output_s(blake2s_s(words), true);
    from_coords(M31(d[0]), M31(d[1]), M31(d[2]), M31(d[3]))
}

/// The words that identify a name, in a message.
fn name_message(salt: u32, tag: u32, name: &String) -> (r: Vec<M31>)
    ensures
        r@.map_values(|m: M31| m.0) == name_words(salt, tag, name@),
{
    let text = name.as_str();
    let n = text.unicode_len();
    let mut r: Vec<M31> = vec![M31(salt), M31(tag)];
    let mut i: usize = 0;
    while i < n
        invariant
            i <= n,
            n == text@.len(),
            text@ == name@,
            r@.len() == i + 2,
            r@[0].0 == salt,
            r@[1].0 == tag,
            forall|j: int| 0 <= j < i ==> (#[trigger] r@[j + 2]).0 == name@[j] as u32,
        decreases n - i,
    {
        let c = text.get_char(i);
        r.push(M31(c as u32));
        i += 1;
    }
    proof {
        let words = name_words(salt, tag, name@);
        assert forall|j: int| 0 <= j < words.len() implies r@.map_values(|m: M31| m.0)[j]
            == words[j] by {
            if j >= 2 {
                assert(r@[(j - 2) + 2].0 == name@[j - 2] as u32);
            }
        }
        assert(r@.map_values(|m: M31| m.0) =~= words);
    }
    r
}

fn draw_base(salt: u32, tag: u32, name: &String) -> (r: M31)
    ensures
        r == drawn_base(name_words(salt, tag, name@)),
{
    let message = name_message(salt, tag, name);
    let digest = blake2s_words(message.as_slice(), true);
    M31(digest.0[0])
}

fn draw_ext(salt: u32, tag: u32, name: &String) -> (r: QM31)
    ensures
        r == drawn_ext(name_words(salt, tag, name@)),
{
    let message = name_message(salt, tag, name);
    let digest = blake2s_words(message.as_slice(), true);
    QM31::from_m31(M31(digest.0[0]), M31(digest.0[1]), M31(digest.0[2]), M31(digest.0[3]))
}

pub open spec fn some_if<T>(present: bool, x: T) -> Option<T> {
    if present {
        Some(x)
    } else {
        None
    }
}

proof fn lemma_has_name_step(names: Seq<String>, i: int, n: Seq<char>)
    requires
        0 <= i < names.len(),
    ensures
        has_name(names.take(i + 1), n) <==> has_name(names.take(i), n) || n == names[i]@,
{
    let (short, long) = (names.take(i), names.take(i + 1));
    if has_name(short, n) {
        let j = choose|j: int| 0 <= j < short.len() && (#[trigger] short[j])@ == n;
        assert(long[j]@ == n);
    }
    assert(long[i] == names[i]);
    if has_name(long, n) {
        let j = choose|j: int| 0 <= j < long.len() && (#[trigger] long[j])@ == n;
        if j < i {
            assert(short[j]@ == n);
        }
    }
}

/// A base value drawn for each name.
fn draw_all(names: &Vec<String>, salt: u32, tag: u32) -> (r: NameMap<M31>)
    ensures
        forall|n: Seq<char>|
            #[trigger] r.value_of(n) == some_if(
                has_name(names@, n),
                drawn_base(name_words(salt, tag, n)),
            ),
{
    let mut r: NameMap<M31> = NameMap::new();
    let mut i: usize = 0;
    while i < names.len()
        invariant
            i <= names@.len(),
            forall|n: Seq<char>|
                #[trigger] r.value_of(n) == some_if(
                    has_name(names@.take(i as int), n),
                    drawn_base(name_words(salt, tag, n)),
                ),
        decreases names@.len() - i,
    {
        let x = draw_base(salt, tag, &names[i]);
        r.insert(names[i].clone(), x);
        proof {
            assert forall|n: Seq<char>| #[trigger] r.value_of(n) == some_if(
                has_name(names@.take(i + 1), n),
                drawn_base(name_words(salt, tag, n)),
            ) by {
                lemma_has_name_step(names@, i as int, n);
            }
        }
        i += 1;
    }
    assert(names@.take(i as int) =~= names@);
    r
}

impl ExprVariables {
    /// A value for every variable. It depends on the salt and the variable alone, so an expression
    /// draws the same values wherever it is met.
    pub fn random_assignment(&self, salt: u32) -> (r: ExprVarAssignment)
        ensures
            forall|c: ColumnExpr|
                #[trigger] r.column_s(c) == some_if(
                    self.has_column(c),
                    drawn_base(name_words(salt, TAG_COLUMN, c.text())),
                ),
            forall|n: Seq<char>|
                #[trigger] r.params.value_of(n) == some_if(
                    self.has_param(n),
                    drawn_base(name_words(salt, TAG_PARAM, n)),
                ),
            forall|n: Seq<char>|
                #[trigger] r.ext_params.value_of(n) == some_if(
                    self.has_ext_param(n),
                    drawn_ext(name_words(salt, TAG_EXT_PARAM, n)),
                ),
            forall|n: Seq<char>|
                #[trigger] r.preprocessed_cols.value_of(n) == some_if(
                    self.has_preprocessed(n),
                    drawn_base(name_words(salt, TAG_PREPROCESSED, n)),
                ),
    {
        let mut columns = ColumnMap::new();
        let mut i: usize = 0;
        while i < self.cols.len()
            invariant
                i <= self.cols@.len(),
                forall|c: ColumnExpr|
                    #[trigger] columns.value_of(c) == some_if(
                        self.cols@.take(i as int).contains(c),
                        drawn_base(name_words(salt, TAG_COLUMN, c.text())),
                    ),
            decreases self.cols@.len() - i,
        {
            let col = self.cols[i];
            let name = col.format_expr();
            let x = draw_base(salt, TAG_COLUMN, &name);
            let ghost before = columns;
            columns.insert(col, x);
            proof {
                let (short, long) = (self.cols@.take(i as int), self.cols@.take(i + 1));
                assert(long[i as int] == col);
                assert forall|c: ColumnExpr| #[trigger] columns.value_of(c) == some_if(
                    long.contains(c),
                    drawn_base(name_words(salt, TAG_COLUMN, c.text())),
                ) by {
                    assert(before.value_of(c) == some_if(
                        short.contains(c),
                        drawn_base(name_words(salt, TAG_COLUMN, c.text())),
                    ));
                    if short.contains(c) {
                        let j = choose|j: int| 0 <= j < short.len() && short[j] == c;
                        assert(long[j] == c);
                    }
                    if long.contains(c) && c != col {
                        let j = choose|j: int| 0 <= j < long.len() && long[j] == c;
                        assert(short[j] == c);
                    }
                }
            }
            i += 1;
        }
        assert(self.cols@.take(i as int) =~= self.cols@);
        let params = draw_all(&self.params, salt, TAG_PARAM);
        let preprocessed_cols = draw_all(&self.preprocessed_cols, salt, TAG_PREPROCESSED);
        let mut ext_params: NameMap<QM31> = NameMap::new();
        let mut i: usize = 0;
        while i < self.ext_params.len()
            invariant
                i <= self.ext_params@.len(),
                forall|n: Seq<char>|
                    #[trigger] ext_params.value_of(n) == some_if(
                        has_name(self.ext_params@.take(i as int), n),
                        drawn_ext(name_words(salt, TAG_EXT_PARAM, n)),
                    ),
            decreases self.ext_params@.len() - i,
        {
            let x = draw_ext(salt, TAG_EXT_PARAM, &self.ext_params[i]);
            ext_params.insert(self.ext_params[i].clone(), x);
            proof {
                assert forall|n: Seq<char>| #[trigger] ext_params.value_of(n) == some_if(
                    has_name(self.ext_params@.take(i + 1), n),
                    drawn_ext(name_words(salt, TAG_EXT_PARAM, n)),
                ) by {
                    lemma_has_name_step(self.ext_params@, i as int, n);
                }
            }
            i += 1;
        }
        assert(self.ext_params@.take(i as int) =~= self.ext_params@);
        ExprVarAssignment { columns, params, ext_params, preprocessed_cols }
    }
}

} // verus!
