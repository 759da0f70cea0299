//! Different columns have different names, and different names are drawn for by different words.

use vstd::prelude::*;

use super::expr::ColumnExpr;
use super::format::offset_text;
use super::intermediates::lemma_decimal_text;
use super::names::{decimal_s, lemma_decimal_injective};
use super::variables::name_words;

verus! {

/// Texts without an underscore, each followed by one, end where the underscore stands.
proof fn lemma_cut(a: Seq<char>, b: Seq<char>, r: Seq<char>, s: Seq<char>)
    requires
        forall|i: int| 0 <= i < a.len() ==> #[trigger] a[i] != '_',
        forall|i: int| 0 <= i < b.len() ==> #[trigger] b[i] != '_',
        r.len() > 0,
        s.len() > 0,
        r[0] == '_',
        s[0] == '_',
        a + r == b + s,
    ensures
        a == b,
        r == s,
{
    let t = a + r;
    let (m, n) = (a.len() as int, b.len() as int);
    assert(t[m] == r[0]);
    assert(t[n] == (b + s)[n] && (b + s)[n] == s[0]);
    if m < n {
        assert(t[m] == b[m]);
    } else if n < m {
        assert(t[n] == a[n]);
    }
    assert(a =~= t.take(m));
    assert(b =~= t.take(m));
    assert(r =~= t.skip(m));
    assert(s =~= t.skip(m));
}

proof fn lemma_decimal_plain(n: nat)
    ensures
        forall|i: int| 0 <= i < decimal_s(n).len() ==> #[trigger] decimal_s(n)[i] != '_',
{
    assert forall|i: int| 0 <= i < decimal_s(n).len() implies #[trigger] decimal_s(n)[i]
        != '_' by {
        lemma_decimal_text(n, i);
    }
}

/// Two numbers, each followed by a text that starts with an underscore.
proof fn lemma_number_cut(a: nat, b: nat, r: Seq<char>, s: Seq<char>)
    requires
        r.len() > 0,
        s.len() > 0,
        r[0] == '_',
        s[0] == '_',
        decimal_s(a) + r == decimal_s(b) + s,
    ensures
        a == b,
        r == s,
{
    lemma_decimal_plain(a);
    lemma_decimal_plain(b);
    lemma_cut(decimal_s(a), decimal_s(b), r, s);
    lemma_decimal_injective(a, b);
}

proof fn lemma_prefix(p: Seq<char>, r: Seq<char>, s: Seq<char>)
    requires
        p + r == p + s,
    ensures
        r == s,
{
    let n = p.len() as int;
    assert(r =~= (p + r).skip(n));
    assert(s =~= (p + s).skip(n));
}

proof fn lemma_offset_injective(a: int, b: int)
    requires
        offset_text(a) == offset_text(b),
    ensures
        a == b,
{
    reveal_strlit("neg_");
    if a >= 0 && b >= 0 {
        lemma_decimal_injective(a as nat, b as nat);
    } else if a < 0 && b < 0 {
        lemma_prefix("neg_"@, decimal_s((-a) as nat), decimal_s((-b) as nat));
        lemma_decimal_injective((-a) as nat, (-b) as nat);
    } else if a >= 0 {
        lemma_decimal_plain(a as nat);
        assert(offset_text(b)[3] == '_');
    } else {
        lemma_decimal_plain(b as nat);
        assert(offset_text(a)[3] == '_');
    }
}

proof fn lemma_regrouped(
    a: Seq<char>,
    b: Seq<char>,
    c: Seq<char>,
    d: Seq<char>,
    e: Seq<char>,
    f: Seq<char>,
)
    ensures
        a + b + c + d + e + f == a + (b + (c + (d + (e + f)))),
{
    assert(a + b + c + d + e + f =~= a + (b + (c + (d + (e + f)))));
}

/// What stands between the numbers of a column's name starts with an underscore.
proof fn lemma_joints()
    ensures
        "_column_"@.len() > 0,
        "_column_"@[0] == '_',
        "_offset_"@.len() > 0,
        "_offset_"@[0] == '_',
{
    reveal_strlit("_column_");
    reveal_strlit("_offset_");
}

/// The name of a column at an offset tells its interaction, its place and the offset.
pub proof fn lemma_column_text_injective(a: ColumnExpr, b: ColumnExpr)
    requires
        a.text() == b.text(),
    ensures
        a == b,
{
    lemma_joints();
    let (p, q, r) = ("trace_"@, "_column_"@, "_offset_"@);
    let (o, u) = (offset_text(a.offset as int), offset_text(b.offset as int));
    let (i, j) = (decimal_s(a.interaction as nat), decimal_s(b.interaction as nat));
    let (k, l) = (decimal_s(a.idx as nat), decimal_s(b.idx as nat));
    let (x, y) = (q + (k + (r + o)), q + (l + (r + u)));
    lemma_regrouped(p, i, q, k, r, o);
    lemma_regrouped(p, j, q, l, r, u);
    lemma_prefix(p, i + x, j + y);
    lemma_number_cut(a.interaction as nat, b.interaction as nat, x, y);
    lemma_prefix(q, k + (r + o), l + (r + u));
    lemma_number_cut(a.idx as nat, b.idx as nat, r + o, r + u);
    lemma_prefix(r, o, u);
    lemma_offset_injective(a.offset as int, b.offset as int);
}

proof fn lemma_char_word(c: char, d: char)
    requires
        c as u32 == d as u32,
    ensures
        c == d,
{
}

/// The words that a value is drawn from tell the salt, the kind of the variable and its name.
pub proof fn lemma_name_words_injective(
    salt: u32,
    tag: u32,
    name: Seq<char>,
    other_salt: u32,
    other_tag: u32,
    other: Seq<char>,
)
    requires
        name_words(salt, tag, name) == name_words(other_salt, other_tag, other),
    ensures
        salt == other_salt,
        tag == other_tag,
        name == other,
{
    let (v, w) = (name_words(salt, tag, name), name_words(other_salt, other_tag, other));
    assert(v[0] == w[0]);
    assert(v[1] == w[1]);
    assert(v.len() == 2 + name.len() && w.len() == 2 + other.len());
    assert forall|i: int| 0 <= i < name.len() implies name[i] == other[i] by {
        assert(v[2 + i] == name[i] as u32);
        assert(w[2 + i] == other[i] as u32);
        lemma_char_word(name[i], other[i]);
    }
    assert(name =~= other);
}

} // verus!
