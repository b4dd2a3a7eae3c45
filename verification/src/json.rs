//! Structural JSON values for federation payloads, and the canonical
//! textual form: object member keys are emitted in strict ascending
//! code-point order at every level, absent optional members are omitted,
//! and array element order is preserved.

use vstd::prelude::*;
use vstd::seq_lib::lemma_multiset_commutative;
use vstd::multiset::Multiset;
use crate::order::{lex_leq, lex_lt, lemma_lex_leq_total, lemma_lex_leq_antisym,
    lemma_lex_leq_trans, str_lex_leq};

verus! {

broadcast use vstd::seq_lib::group_to_multiset_ensures, vstd::multiset::group_multiset_axioms;

/// A JSON value as this wire format uses them: booleans, strings, and
/// arrays of strings. Object members hold one of these. Any other JSON
/// value — a number, null, a nested object, a mixed array — decodes as the
/// opaque `VOther`, so unknown members of any shape pass through decoding;
/// the canonical encoder renders an opaque value as `null`.
pub enum JsonVal {
    VBool(bool),
    VStr(String),
    VArr(Vec<String>),
    VOther,
}

/// The mathematical shape of a [`JsonVal`].
pub enum ValV {
    B(bool),
    S(Seq<char>),
    A(Seq<Seq<char>>),
    O,
}

impl View for JsonVal {
    type V = ValV;

    open spec fn view(&self) -> ValV {
        match self {
            JsonVal::VBool(b) => ValV::B(*b),
            JsonVal::VStr(s) => ValV::S(s@),
            JsonVal::VArr(v) => ValV::A(v.deep_view()),
            JsonVal::VOther => ValV::O,
        }
    }
}

/// One member of a JSON object: a key and its value.
pub struct JsonField {
    pub key: String,
    pub val: JsonVal,
}

/// The mathematical shape of a member: key and value.
pub type FieldV = (Seq<char>, ValV);

impl View for JsonField {
    type V = FieldV;

    open spec fn view(&self) -> FieldV {
        (self.key@, self.val@)
    }
}

/// The shapes of a whole member list.
pub open spec fn fields_view(fs: Seq<JsonField>) -> Seq<FieldV> {
    fs.map_values(|f: JsonField| f@)
}

/// The lowercase hexadecimal digit for a value below sixteen.
pub open spec fn hex_digit(n: int) -> char {
    if n == 0 { '0' } else if n == 1 { '1' } else if n == 2 { '2' }
    else if n == 3 { '3' } else if n == 4 { '4' } else if n == 5 { '5' }
    else if n == 6 { '6' } else if n == 7 { '7' } else if n == 8 { '8' }
    else if n == 9 { '9' } else if n == 10 { 'a' } else if n == 11 { 'b' }
    else if n == 12 { 'c' } else if n == 13 { 'd' } else if n == 14 { 'e' }
    else { 'f' }
}

/// How one character appears inside a string literal: quote and backslash
/// are escaped, the three named control characters use their short escapes,
/// every other control character below U+0020 is escaped as `\u00XX` (as
/// JSON requires), and everything else is verbatim.
pub open spec fn esc_char(c: char) -> Seq<char> {
    if c == '"' {
        seq!['\\', '"']
    } else if c == '\\' {
        seq!['\\', '\\']
    } else if c == '\n' {
        seq!['\\', 'n']
    } else if c == '\r' {
        seq!['\\', 'r']
    } else if c == '\t' {
        seq!['\\', 't']
    } else if (c as u32) < 0x20 {
        seq!['\\', 'u', '0', '0'].push(hex_digit((c as u32) as int / 16)).push(
            hex_digit((c as u32) as int % 16))
    } else {
        seq![c]
    }
}

/// The escaped body of a string literal.
pub open spec fn esc_str(s: Seq<char>) -> Seq<char>
    decreases s.len(),
{
    if s.len() == 0 {
        Seq::<char>::empty()
    } else {
        esc_char(s[0]) + esc_str(s.drop_first())
    }
}

/// A quoted, escaped string literal.
pub open spec fn str_lit(s: Seq<char>) -> Seq<char> {
    seq!['"'] + esc_str(s) + seq!['"']
}

/// The comma-separated elements of a string array, in their given order.
pub open spec fn enc_items(xs: Seq<Seq<char>>) -> Seq<char>
    decreases xs.len(),
{
    if xs.len() == 0 {
        Seq::<char>::empty()
    } else if xs.len() == 1 {
        str_lit(xs[0])
    } else {
        str_lit(xs[0]) + seq![','] + enc_items(xs.drop_first())
    }
}

/// The text of one value.
pub open spec fn enc_val(v: ValV) -> Seq<char> {
    match v {
        ValV::B(b) => if b {
            seq!['t', 'r', 'u', 'e']
        } else {
            seq!['f', 'a', 'l', 's', 'e']
        },
        ValV::S(s) => str_lit(s),
        ValV::A(xs) => seq!['['] + enc_items(xs) + seq![']'],
        ValV::O => seq!['n', 'u', 'l', 'l'],
    }
}

/// The text of one member: key, colon, value.
pub open spec fn enc_field(f: FieldV) -> Seq<char> {
    str_lit(f.0) + seq![':'] + enc_val(f.1)
}

/// The comma-separated members, in the order given.
pub open spec fn enc_fields(fs: Seq<FieldV>) -> Seq<char>
    decreases fs.len(),
{
    if fs.len() == 0 {
        Seq::<char>::empty()
    } else if fs.len() == 1 {
        enc_field(fs[0])
    } else {
        enc_field(fs[0]) + seq![','] + enc_fields(fs.drop_first())
    }
}

/// The text of a whole object, members in the order given.
pub open spec fn enc_obj(fs: Seq<FieldV>) -> Seq<char> {
    seq!['{'] + enc_fields(fs) + seq!['}']
}

/// Member keys are pairwise distinct, as JSON object member names must be.
pub open spec fn distinct_keys(fs: Seq<FieldV>) -> bool {
    forall|i: int, j: int| 0 <= i < j < fs.len() ==> fs[i].0 != fs[j].0
}

/// Member keys are in strictly ascending code-point order.
pub open spec fn keys_sorted(fs: Seq<FieldV>) -> bool {
    forall|i: int, j: int| 0 <= i < j < fs.len() ==> lex_lt(fs[i].0, fs[j].0)
}

/// Where a member lands when inserted into a key-sorted member list.
pub open spec fn insert_sorted(f: FieldV, s: Seq<FieldV>) -> Seq<FieldV>
    decreases s.len(),
{
    if s.len() == 0 {
        seq![f]
    } else if lex_leq(f.0, s[0].0) {
        seq![f] + s
    } else {
        seq![s[0]] + insert_sorted(f, s.drop_first())
    }
}

/// The canonical member order: the unique key-sorted permutation.
/// This is the structural transform applied uniformly before emitting
/// any object, so the text never depends on the members' given order.
pub open spec fn canon(fs: Seq<FieldV>) -> Seq<FieldV>
    decreases fs.len(),
{
    if fs.len() == 0 {
        Seq::<FieldV>::empty()
    } else {
        insert_sorted(fs[0], canon(fs.drop_first()))
    }
}

/// Inserting keeps exactly the members: the multiset is preserved.
pub proof fn lemma_insert_sorted_multiset(f: FieldV, s: Seq<FieldV>)
    ensures
        insert_sorted(f, s).to_multiset() == s.to_multiset().insert(f),
    decreases s.len(),
{
    if s.len() == 0 {
        assert(insert_sorted(f, s) =~= seq![f]);
        assert(seq![f].to_multiset() =~= s.to_multiset().insert(f));
    } else if lex_leq(f.0, s[0].0) {
        lemma_multiset_commutative(seq![f], s);
        assert(seq![f].to_multiset() =~= Multiset::<FieldV>::empty().insert(f));
        assert((seq![f] + s).to_multiset() =~= s.to_multiset().insert(f));
    } else {
        lemma_insert_sorted_multiset(f, s.drop_first());
        lemma_multiset_commutative(seq![s[0]], insert_sorted(f, s.drop_first()));
        assert(s =~= seq![s[0]] + s.drop_first());
        lemma_multiset_commutative(seq![s[0]], s.drop_first());
        assert((seq![s[0]] + insert_sorted(f, s.drop_first())).to_multiset()
            =~= s.to_multiset().insert(f));
    }
}

/// Sorting keeps exactly the members: the multiset is preserved.
pub proof fn lemma_canon_multiset(fs: Seq<FieldV>)
    ensures
        canon(fs).to_multiset() == fs.to_multiset(),
    decreases fs.len(),
{
    if fs.len() == 0 {
        assert(canon(fs) =~= fs);
    } else {
        lemma_canon_multiset(fs.drop_first());
        lemma_insert_sorted_multiset(fs[0], canon(fs.drop_first()));
        assert(fs =~= seq![fs[0]] + fs.drop_first());
        lemma_multiset_commutative(seq![fs[0]], fs.drop_first());
        assert(fs.to_multiset() =~= fs.drop_first().to_multiset().insert(fs[0]));
    }
}

/// A member list and its sorted form hold the same members.
pub proof fn lemma_canon_contains(fs: Seq<FieldV>, f: FieldV)
    ensures
        canon(fs).contains(f) == fs.contains(f),
{
    lemma_canon_multiset(fs);
    assert(fs.contains(f) == fs.to_multiset().contains(f));
    assert(canon(fs).contains(f) == canon(fs).to_multiset().contains(f));
}

/// Inserting into a strictly key-sorted list whose keys avoid the new key
/// yields a strictly key-sorted list.
pub proof fn lemma_insert_sorted_sorted(f: FieldV, s: Seq<FieldV>)
    requires
        keys_sorted(s),
        forall|i: int| 0 <= i < s.len() ==> (#[trigger] s[i]).0 != f.0,
    ensures
        keys_sorted(insert_sorted(f, s)),
    decreases s.len(),
{
    if s.len() == 0 {
    } else if lex_leq(f.0, s[0].0) {
        let r = seq![f] + s;
        assert forall|i: int, j: int| 0 <= i < j < r.len() implies lex_lt(r[i].0, r[j].0) by {
            if i == 0 {
                assert(r[j] == s[j - 1]);
                if j == 1 {
                } else {
                    assert(lex_lt(s[0].0, s[j - 1].0));
                    lemma_lex_leq_trans(f.0, s[0].0, s[j - 1].0);
                }
            } else {
                assert(r[i] == s[i - 1]);
                assert(r[j] == s[j - 1]);
            }
        }
    } else {
        lemma_lex_leq_total(f.0, s[0].0);
        assert(lex_leq(s[0].0, f.0));
        let t = insert_sorted(f, s.drop_first());
        lemma_insert_sorted_sorted(f, s.drop_first());
        lemma_insert_sorted_multiset(f, s.drop_first());
        let r = seq![s[0]] + t;
        assert forall|i: int, j: int| 0 <= i < j < r.len() implies lex_lt(r[i].0, r[j].0) by {
            if i == 0 {
                assert(r[j] == t[j - 1]);
                assert(t.contains(t[j - 1]));
                assert(t.to_multiset().contains(t[j - 1]));
                if t[j - 1] == f {
                    assert(lex_leq(s[0].0, f.0));
                    assert(s[0].0 != f.0);
                } else {
                    assert(s.drop_first().to_multiset().contains(t[j - 1]));
                    assert(s.drop_first().contains(t[j - 1]));
                    let k = choose|k: int|
                        0 <= k < s.drop_first().len() && s.drop_first()[k] == t[j - 1];
                    assert(s[k + 1] == t[j - 1]);
                    assert(lex_lt(s[0].0, s[k + 1].0));
                }
            } else {
                assert(r[i] == t[i - 1]);
                assert(r[j] == t[j - 1]);
            }
        }
    }
}

/// Sorting a list with pairwise-distinct keys gives strictly ascending keys.
pub proof fn lemma_canon_sorted(fs: Seq<FieldV>)
    requires
        distinct_keys(fs),
    ensures
        keys_sorted(canon(fs)),
    decreases fs.len(),
{
    if fs.len() == 0 {
    } else {
        assert(distinct_keys(fs.drop_first())) by {
            assert(forall|i: int|
                0 <= i < fs.drop_first().len() ==> fs.drop_first()[i] == fs[i + 1]);
        }
        lemma_canon_sorted(fs.drop_first());
        assert forall|i: int| 0 <= i < canon(fs.drop_first()).len()
            implies (#[trigger] canon(fs.drop_first())[i]).0 != fs[0].0 by {
            let c = canon(fs.drop_first());
            assert(c.contains(c[i]));
            lemma_canon_contains(fs.drop_first(), c[i]);
            let k = choose|k: int|
                0 <= k < fs.drop_first().len() && fs.drop_first()[k] == c[i];
            assert(fs[k + 1] == c[i]);
            assert(fs[k + 1].0 != fs[0].0);
        }
        lemma_insert_sorted_sorted(fs[0], canon(fs.drop_first()));
    }
}

/// Strictly key-sorted lists are unique per member multiset: two sorted
/// lists holding the same members are the same list.
pub proof fn lemma_sorted_unique(x: Seq<FieldV>, y: Seq<FieldV>)
    requires
        keys_sorted(x),
        keys_sorted(y),
        x.to_multiset() == y.to_multiset(),
    ensures
        x == y,
    decreases x.len(),
{
    if x.len() == 0 {
        if y.len() > 0 {
            assert(y.to_multiset().contains(y[0]));
        }
        assert(x =~= y);
    } else {
        assert(x.to_multiset().contains(x[0]));
        assert(y.to_multiset().contains(x[0]));
        assert(y.contains(x[0]));
        assert(y.len() > 0);
        assert(y.to_multiset().contains(y[0]));
        assert(x.to_multiset().contains(y[0]));
        assert(x.contains(y[0]));
        let i = choose|i: int| 0 <= i < x.len() && x[i] == y[0];
        let j = choose|j: int| 0 <= j < y.len() && y[j] == x[0];
        // strict sortedness forces the heads to coincide
        if i > 0 {
            assert(lex_lt(x[0].0, x[i].0));
            if j == 0 {
                assert(x[0].0 == y[0].0);
                assert(false);
            } else {
                assert(lex_lt(y[0].0, y[j].0));
                lemma_lex_leq_antisym(x[0].0, y[0].0);
                assert(false);
            }
        }
        assert(x[0] == y[0]);
        assert(x.drop_first() =~= x.remove(0));
        assert(y.drop_first() =~= y.remove(0));
        assert(x.remove(0).to_multiset() == x.to_multiset().remove(x[0]));
        assert(y.remove(0).to_multiset() == y.to_multiset().remove(y[0]));
        assert(keys_sorted(x.drop_first())) by {
            assert(forall|k: int|
                0 <= k < x.drop_first().len() ==> x.drop_first()[k] == x[k + 1]);
        }
        assert(keys_sorted(y.drop_first())) by {
            assert(forall|k: int|
                0 <= k < y.drop_first().len() ==> y.drop_first()[k] == y[k + 1]);
        }
        lemma_sorted_unique(x.drop_first(), y.drop_first());
        assert(x.len() == y.len());
        assert forall|k: int| 0 <= k < x.len() implies x[k] == y[k] by {
            if k >= 1 {
                assert(x[k] == x.drop_first()[k - 1]);
                assert(y[k] == y.drop_first()[k - 1]);
            }
        }
        assert(x =~= y);
    }
}

/// Canonical order is independent of the given member order: any two
/// member lists with the same members sort to the same list.
pub proof fn lemma_canon_order_invariant(fs1: Seq<FieldV>, fs2: Seq<FieldV>)
    requires
        distinct_keys(fs1),
        distinct_keys(fs2),
        fs1.to_multiset() == fs2.to_multiset(),
    ensures
        canon(fs1) == canon(fs2),
{
    lemma_canon_multiset(fs1);
    lemma_canon_multiset(fs2);
    lemma_canon_sorted(fs1);
    lemma_canon_sorted(fs2);
    lemma_sorted_unique(canon(fs1), canon(fs2));
}

/// Order invariance of input: two member lists that are permutations of
/// the same logical members (with distinct keys) encode to identical text.
pub proof fn lemma_encode_order_invariant(fs1: Seq<FieldV>, fs2: Seq<FieldV>)
    requires
        distinct_keys(fs1),
        distinct_keys(fs2),
        fs1.to_multiset() == fs2.to_multiset(),
    ensures
        enc_obj(canon(fs1)) == enc_obj(canon(fs2)),
{
    lemma_canon_order_invariant(fs1, fs2);
}

/// Strictly ascending keys are in particular pairwise distinct.
pub proof fn lemma_sorted_implies_distinct(fs: Seq<FieldV>)
    requires
        keys_sorted(fs),
    ensures
        distinct_keys(fs),
{
    assert forall|i: int, j: int| 0 <= i < j < fs.len() implies fs[i].0 != fs[j].0 by {
        assert(lex_lt(fs[i].0, fs[j].0));
    }
}

/// Appending one character extends the escaped body by that character's escape.
pub proof fn lemma_esc_str_push(s: Seq<char>, c: char)
    ensures
        esc_str(s.push(c)) == esc_str(s) + esc_char(c),
    decreases s.len(),
{
    if s.len() == 0 {
        let p = s.push(c);
        assert(p[0] == c);
        assert(p.drop_first() =~= Seq::<char>::empty());
        assert(esc_str(Seq::<char>::empty()) == Seq::<char>::empty());
        assert(esc_str(p) == esc_char(c) + Seq::<char>::empty());
        assert(esc_char(c) + Seq::<char>::empty() =~= esc_char(c));
        assert(esc_str(s) + esc_char(c) =~= esc_char(c));
    } else {
        assert(s.push(c)[0] == s[0]);
        assert(s.push(c).drop_first() =~= s.drop_first().push(c));
        lemma_esc_str_push(s.drop_first(), c);
        assert(esc_str(s.push(c)) =~= esc_str(s) + esc_char(c));
    }
}

/// Appending one element extends the array text by a comma (if needed) and
/// the element's literal.
pub proof fn lemma_enc_items_push(xs: Seq<Seq<char>>, x: Seq<char>)
    ensures
        enc_items(xs.push(x)) == if xs.len() == 0 {
            str_lit(x)
        } else {
            enc_items(xs) + seq![','] + str_lit(x)
        },
    decreases xs.len(),
{
    if xs.len() == 0 {
        assert(xs.push(x)[0] == x);
    } else {
        assert(xs.push(x)[0] == xs[0]);
        assert(xs.push(x).drop_first() =~= xs.drop_first().push(x));
        lemma_enc_items_push(xs.drop_first(), x);
        assert(enc_items(xs.push(x)) =~= enc_items(xs) + seq![','] + str_lit(x));
    }
}

/// Appending one member extends the object text by a comma (if needed) and
/// the member's text.
pub proof fn lemma_enc_fields_push(fs: Seq<FieldV>, f: FieldV)
    ensures
        enc_fields(fs.push(f)) == if fs.len() == 0 {
            enc_field(f)
        } else {
            enc_fields(fs) + seq![','] + enc_field(f)
        },
    decreases fs.len(),
{
    if fs.len() == 0 {
        assert(fs.push(f)[0] == f);
    } else {
        assert(fs.push(f)[0] == fs[0]);
        assert(fs.push(f).drop_first() =~= fs.drop_first().push(f));
        lemma_enc_fields_push(fs.drop_first(), f);
        assert(enc_fields(fs.push(f)) =~= enc_fields(fs) + seq![','] + enc_field(f));
    }
}

/// The lowercase hexadecimal digit character for a value below sixteen.
fn hex_char(n: u32) -> (r: char)
    requires
        n < 16,
    ensures
        r == hex_digit(n as int),
{
    if n == 0 { '0' } else if n == 1 { '1' } else if n == 2 { '2' }
    else if n == 3 { '3' } else if n == 4 { '4' } else if n == 5 { '5' }
    else if n == 6 { '6' } else if n == 7 { '7' } else if n == 8 { '8' }
    else if n == 9 { '9' } else if n == 10 { 'a' } else if n == 11 { 'b' }
    else if n == 12 { 'c' } else if n == 13 { 'd' } else if n == 14 { 'e' }
    else { 'f' }
}

/// Writes the escaped body of `s` onto `out`.
fn write_escaped(out: &mut String, s: &str)
    ensures
        final(out)@ == old(out)@ + esc_str(s@),
{
    let n = s.unicode_len();
    let mut i: usize = 0;
    proof {
        assert(s@.take(0) =~= Seq::<char>::empty());
        assert(out@ =~= old(out)@ + esc_str(s@.take(0)));
    }
    while i < n
        invariant
            i <= n,
            n == s@.len(),
            out@ == old(out)@ + esc_str(s@.take(i as int)),
        decreases n - i,
    {
        let ghost pre = s@.take(i as int);
        let c = s.get_char(i);
        if c == '"' {
            out.append("\\\"");
            proof { reveal_strlit("\\\""); }
        } else if c == '\\' {
            out.append("\\\\");
            proof { reveal_strlit("\\\\"); }
        } else if c == '\n' {
            out.append("\\n");
            proof { reveal_strlit("\\n"); }
        } else if c == '\r' {
            out.append("\\r");
            proof { reveal_strlit("\\r"); }
        } else if c == '\t' {
            out.append("\\t");
            proof { reveal_strlit("\\t"); }
        } else if (c as u32) < 0x20 {
            crate::strutil::push_char(out, '\\');
            crate::strutil::push_char(out, 'u');
            crate::strutil::push_char(out, '0');
            crate::strutil::push_char(out, '0');
            crate::strutil::push_char(out, hex_char((c as u32) / 16));
            crate::strutil::push_char(out, hex_char((c as u32) % 16));
            proof {
                assert(((c as u32) / 16) as int == (c as u32) as int / 16);
                assert(((c as u32) % 16) as int == (c as u32) as int % 16);
                assert(esc_char(c).len() == 6);
                assert(esc_char(c)[0] == '\\');
                assert(esc_char(c)[1] == 'u');
                assert(esc_char(c)[2] == '0');
                assert(esc_char(c)[3] == '0');
                assert(esc_char(c)[4] == hex_digit((c as u32) as int / 16));
                assert(esc_char(c)[5] == hex_digit((c as u32) as int % 16));
                assert(out@ =~= old(out)@ + esc_str(s@.take(i as int)) + esc_char(c));
            }
        } else {
            crate::strutil::push_char(out, c);
        }
        proof {
            lemma_esc_str_push(pre, c);
            assert(s@.take(i + 1) =~= pre.push(c));
            assert(out@ =~= old(out)@ + esc_str(s@.take(i + 1)));
        }
        i = i + 1;
    }
    proof {
        assert(s@.take(n as int) =~= s@);
    }
}

/// Writes the quoted, escaped literal of `s` onto `out`.
pub fn write_str_lit(out: &mut String, s: &str)
    ensures
        final(out)@ == old(out)@ + str_lit(s@),
{
    crate::strutil::push_char(out, '"');
    write_escaped(out, s);
    crate::strutil::push_char(out, '"');
    proof {
        assert(out@ =~= old(out)@ + str_lit(s@));
    }
}

/// Writes the text of one value onto `out`.
fn write_val(out: &mut String, v: &JsonVal)
    ensures
        final(out)@ == old(out)@ + enc_val(v@),
{
    match v {
        JsonVal::VBool(b) => {
            if *b {
                out.append("true");
                proof {
                    reveal_strlit("true");
                    assert(out@ =~= old(out)@ + enc_val(v@));
                }
            } else {
                out.append("false");
                proof {
                    reveal_strlit("false");
                    assert(out@ =~= old(out)@ + enc_val(v@));
                }
            }
        },
        JsonVal::VStr(s) => {
            write_str_lit(out, s.as_str());
        },
        JsonVal::VOther => {
            out.append("null");
            proof {
                reveal_strlit("null");
                assert(out@ =~= old(out)@ + enc_val(v@));
            }
        },
        JsonVal::VArr(items) => {
            let ghost xs = items.deep_view();
            crate::strutil::push_char(out, '[');
            let ghost base = out@;
            proof {
                assert(xs.take(0) =~= Seq::<Seq<char>>::empty());
            }
            let n = items.len();
            let mut i: usize = 0;
            while i < n
                invariant
                    i <= n,
                    n == items@.len(),
                    xs == items.deep_view(),
                    xs.len() == n,
                    forall|k: int| 0 <= k < n ==> xs[k] == #[trigger] items@[k]@,
                    out@ == base + enc_items(xs.take(i as int)),
                decreases n - i,
            {
                let ghost pre = xs.take(i as int);
                if i > 0 {
                    crate::strutil::push_char(out, ',');
                }
                write_str_lit(out, items[i].as_str());
                proof {
                    lemma_enc_items_push(pre, xs[i as int]);
                    assert(xs.take(i + 1) =~= pre.push(xs[i as int]));
                    assert(out@ =~= base + enc_items(xs.take(i + 1)));
                }
                i = i + 1;
            }
            crate::strutil::push_char(out, ']');
            proof {
                assert(xs.take(n as int) =~= xs);
                assert(out@ =~= old(out)@ + enc_val(v@));
            }
        },
    }
}

/// Writes the text of one member onto `out`.
fn write_field(out: &mut String, f: &JsonField)
    ensures
        final(out)@ == old(out)@ + enc_field(f@),
{
    write_str_lit(out, f.key.as_str());
    crate::strutil::push_char(out, ':');
    write_val(out, &f.val);
    proof {
        assert(out@ =~= old(out)@ + enc_field(f@));
    }
}

/// Emits the object text with members in exactly the order given.
fn encode_obj_str(fs: &Vec<JsonField>) -> (r: String)
    ensures
        r@ == enc_obj(fields_view(fs@)),
{
    let ghost fv = fields_view(fs@);
    let mut out = String::new();
    crate::strutil::push_char(&mut out, '{');
    let ghost base = out@;
    proof {
        assert(fv.take(0) =~= Seq::<FieldV>::empty());
    }
    let n = fs.len();
    let mut i: usize = 0;
    while i < n
        invariant
            i <= n,
            n == fs@.len(),
            fv == fields_view(fs@),
            fv.len() == n,
            out@ == base + enc_fields(fv.take(i as int)),
        decreases n - i,
    {
        let ghost pre = fv.take(i as int);
        if i > 0 {
            crate::strutil::push_char(&mut out, ',');
        }
        write_field(&mut out, &fs[i]);
        proof {
            lemma_enc_fields_push(pre, fv[i as int]);
            assert(fv.take(i + 1) =~= pre.push(fv[i as int]));
            assert(out@ =~= base + enc_fields(fv.take(i + 1)));
        }
        i = i + 1;
    }
    crate::strutil::push_char(&mut out, '}');
    proof {
        assert(fv.take(n as int) =~= fv);
        assert(out@ =~= enc_obj(fv));
    }
    out
}

/// Inserts a member at its place in a key-sorted member list.
fn insert_field(f: JsonField, s: Vec<JsonField>) -> (r: Vec<JsonField>)
    ensures
        fields_view(r@) == insert_sorted(f@, fields_view(s@)),
    decreases s@.len(),
{
    let ghost sv = fields_view(s@);
    if s.len() == 0 {
        let mut r: Vec<JsonField> = Vec::new();
        r.push(f);
        proof {
            assert(fields_view(r@) =~= seq![f@]);
            assert(fields_view(r@) =~= insert_sorted(f@, sv));
        }
        r
    } else if str_lex_leq(f.key.as_str(), s[0].key.as_str()) {
        let mut s = s;
        s.insert(0, f);
        proof {
            assert(fields_view(s@) =~= seq![f@] + sv);
        }
        s
    } else {
        let mut s = s;
        let h = s.remove(0);
        proof {
            assert(fields_view(s@) =~= sv.drop_first());
        }
        let t = insert_field(f, s);
        let mut r = t;
        r.insert(0, h);
        proof {
            assert(fields_view(r@) =~= seq![sv[0]] + insert_sorted(f@, sv.drop_first()));
        }
        r
    }
}

/// Sorts a member list into the canonical key order.
pub fn sort_fields(fs: Vec<JsonField>) -> (r: Vec<JsonField>)
    ensures
        fields_view(r@) == canon(fields_view(fs@)),
    decreases fs@.len(),
{
    let ghost fv = fields_view(fs@);
    if fs.len() == 0 {
        proof {
            assert(fields_view(fs@) =~= canon(fv));
        }
        fs
    } else {
        let mut fs = fs;
        let h = fs.remove(0);
        proof {
            assert(fields_view(fs@) =~= fv.drop_first());
        }
        let rest = sort_fields(fs);
        let r = insert_field(h, rest);
        proof {
            assert(fields_view(r@) == insert_sorted(fv[0], canon(fv.drop_first())));
        }
        r
    }
}

/// Encodes an object canonically: members are first brought into strict
/// ascending key order, then emitted; the given order never shows through.
pub fn encode_canonical(fs: Vec<JsonField>) -> (r: String)
    ensures
        r@ == enc_obj(canon(fields_view(fs@))),
{
    let sorted = sort_fields(fs);
    encode_obj_str(&sorted)
}

/// The value of the first member with the given key, if any.
pub open spec fn lookup(fs: Seq<FieldV>, k: Seq<char>) -> Option<ValV>
    decreases fs.len(),
{
    if fs.len() == 0 {
        None
    } else if fs[0].0 == k {
        Some(fs[0].1)
    } else {
        lookup(fs.drop_first(), k)
    }
}

/// Looking up in a concatenation tries the left part first.
pub proof fn lemma_lookup_concat(a: Seq<FieldV>, b: Seq<FieldV>, k: Seq<char>)
    ensures
        lookup(a + b, k) == match lookup(a, k) {
            Some(v) => Some(v),
            None => lookup(b, k),
        },
    decreases a.len(),
{
    if a.len() == 0 {
        assert(a + b =~= b);
    } else {
        assert((a + b)[0] == a[0]);
        assert((a + b).drop_first() =~= a.drop_first() + b);
        lemma_lookup_concat(a.drop_first(), b, k);
    }
}

/// A successful lookup names a member of the list.
pub proof fn lemma_lookup_contains(fs: Seq<FieldV>, k: Seq<char>, v: ValV)
    requires
        lookup(fs, k) == Some(v),
    ensures
        fs.contains((k, v)),
    decreases fs.len(),
{
    if fs[0].0 == k {
        assert(fs[0] == (k, v));
    } else {
        lemma_lookup_contains(fs.drop_first(), k, v);
        let i = choose|i: int| 0 <= i < fs.drop_first().len() && fs.drop_first()[i] == (k, v);
        assert(fs[i + 1] == (k, v));
    }
}

/// With pairwise-distinct keys, a member determines the lookup result.
pub proof fn lemma_contains_lookup(fs: Seq<FieldV>, k: Seq<char>, v: ValV)
    requires
        distinct_keys(fs),
        fs.contains((k, v)),
    ensures
        lookup(fs, k) == Some(v),
    decreases fs.len(),
{
    let i = choose|i: int| 0 <= i < fs.len() && fs[i] == (k, v);
    if i == 0 {
        assert(fs[0].0 == k);
    } else {
        assert(fs[0].0 != k);
        assert(distinct_keys(fs.drop_first())) by {
            assert(forall|m: int|
                0 <= m < fs.drop_first().len() ==> fs.drop_first()[m] == fs[m + 1]);
        }
        assert(fs.drop_first()[i - 1] == (k, v));
        assert(fs.drop_first().contains((k, v)));
        lemma_contains_lookup(fs.drop_first(), k, v);
    }
}

/// A failed lookup means no member carries the key.
pub proof fn lemma_lookup_none(fs: Seq<FieldV>, k: Seq<char>)
    requires
        lookup(fs, k) is None,
    ensures
        forall|v: ValV| !fs.contains((k, v)),
    decreases fs.len(),
{
    if fs.len() == 0 {
    } else {
        assert(fs[0].0 != k);
        lemma_lookup_none(fs.drop_first(), k);
        assert forall|v: ValV| !fs.contains((k, v)) by {
            assert(!fs.drop_first().contains((k, v)));
            if fs.contains((k, v)) {
                let i = choose|i: int| 0 <= i < fs.len() && fs[i] == (k, v);
                assert(fs[i] == (k, v));
                if i == 0 {
                    assert(fs[0].0 == k);
                } else {
                    assert(fs.drop_first()[i - 1] == (k, v));
                    assert(fs.drop_first().contains((k, v)));
                }
                assert(false);
            }
        }
    }
}

/// Lookups see through any permutation, as long as keys are distinct:
/// an object's members are a finite map, not an ordered record.
pub proof fn lemma_lookup_perm(a: Seq<FieldV>, b: Seq<FieldV>, k: Seq<char>)
    requires
        distinct_keys(a),
        distinct_keys(b),
        a.to_multiset() == b.to_multiset(),
    ensures
        lookup(a, k) == lookup(b, k),
{
    match lookup(a, k) {
        Some(v) => {
            lemma_lookup_contains(a, k, v);
            assert(a.to_multiset().contains((k, v)));
            assert(b.contains((k, v)));
            lemma_contains_lookup(b, k, v);
        },
        None => {
            lemma_lookup_none(a, k);
            match lookup(b, k) {
                Some(v) => {
                    lemma_lookup_contains(b, k, v);
                    assert(b.to_multiset().contains((k, v)));
                    assert(a.contains((k, v)));
                    assert(false);
                },
                None => {},
            }
        },
    }
}

/// Canonical reordering never changes what a key maps to.
pub proof fn lemma_lookup_canon(fs: Seq<FieldV>, k: Seq<char>)
    requires
        distinct_keys(fs),
    ensures
        lookup(canon(fs), k) == lookup(fs, k),
{
    lemma_canon_multiset(fs);
    lemma_canon_sorted(fs);
    lemma_sorted_implies_distinct(canon(fs));
    lemma_lookup_perm(canon(fs), fs, k);
}

/// Finds the first member with the given key.
pub fn get_field<'a>(fs: &'a Vec<JsonField>, key: &str) -> (r: Option<&'a JsonVal>)
    ensures
        match r {
            Some(v) => lookup(fields_view(fs@), key@) == Some(v@),
            None => lookup(fields_view(fs@), key@) is None,
        },
{
    let ghost fv = fields_view(fs@);
    let n = fs.len();
    let mut i: usize = 0;
    proof {
        assert(fv.skip(0) =~= fv);
    }
    while i < n
        invariant
            i <= n,
            n == fs@.len(),
            fv == fields_view(fs@),
            fv.len() == n,
            lookup(fv, key@) == lookup(fv.skip(i as int), key@),
        decreases n - i,
    {
        proof {
            assert(fv.skip(i as int)[0] == fv[i as int]);
        }
        if crate::strutil::str_eq(fs[i].key.as_str(), key) {
            return Some(&fs[i].val);
        }
        proof {
            assert(fv.skip(i as int).drop_first() =~= fv.skip(i + 1));
        }
        i = i + 1;
    }
    proof {
        assert(fv.skip(n as int) =~= Seq::<FieldV>::empty());
    }
    None
}

} // verus!
