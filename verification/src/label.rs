//! Spreadsheet-style column names (A, B, ..., Z, AA, AB, ...) for labelling
//! the columns of a board.

use vstd::prelude::*;

verus! {

/// The capital letter of digit `d` (`0 <= d < 26`): `'A' + d`.
pub open spec fn letter(d: int) -> char {
    (65 + d) as char
}

/// The name of column number `n`, counted from 1, in bijective base 26:
/// 1 is "A", 26 is "Z", 27 is "AA"; 0 has the empty name.
pub open spec fn column_name(n: nat) -> Seq<char>
    decreases n,
{
    if n == 0 {
        Seq::empty()
    } else {
        column_name(((n - 1) / 26) as nat).push(letter((n - 1) % 26))
    }
}

/// Appends `c` to `s` with `String::push`, which std documents as appending
/// the given char to the end of the string.
#[verifier::external_body]
fn push_char(s: &mut String, c: char)
    ensures
        final(s)@ == old(s)@.push(c),
{
    s.push(c);
}

/// The label of the zero-based column `x`: "A" for 0, "Z" for 25, "AA" for 26.
pub fn column_label(x: usize) -> (s: String)
    requires
        x < usize::MAX,
    ensures
        s@ == column_name(x as nat + 1),
{
    let mut n = x + 1;
    // The letters, last letter first.
    let mut letters: Vec<char> = Vec::new();
    while n > 0
        invariant
            column_name(x as nat + 1) == column_name(n as nat) + letters@.reverse(),
        decreases n,
    {
        let rem = (n - 1) % 26;
        let c = (65u8 + rem as u8) as char;
        assert(c == letter(rem as int));
        let ghost before = letters@;
        letters.push(c);
        assert(letters@.reverse() =~= seq![c] + before.reverse());
        assert(column_name(n as nat) == column_name(((n - 1) / 26) as nat).push(c));
        assert(column_name(((n - 1) / 26) as nat).push(c) + before.reverse() =~= column_name(
            ((n - 1) / 26) as nat,
        ) + letters@.reverse());
        n = (n - 1) / 26;
    }
    assert(column_name(0) + letters@.reverse() =~= letters@.reverse());
    let mut s = String::new();
    let mut i = letters.len();
    while i > 0
        invariant
            i <= letters@.len(),
            s@ == letters@.reverse().take(letters@.len() - i),
        decreases i,
    {
        i = i - 1;
        push_char(&mut s, letters[i]);
        assert(letters@.reverse().take(letters@.len() - i) =~= letters@.reverse().take(
            letters@.len() - i - 1,
        ).push(letters@[i as int]));
    }
    assert(letters@.reverse().take(letters@.len() as int) =~= letters@.reverse());
    s
}

/// The name of a positive column number is not empty, and only column 0 has
/// the empty name.
proof fn lemma_column_name_empty(n: nat)
    ensures
        (column_name(n).len() == 0) == (n == 0),
{
}

/// Every column name is made of the capital letters A to Z.
pub proof fn lemma_column_name_letters(n: nat)
    ensures
        forall|i: int|
            0 <= i < column_name(n).len() ==> 'A' <= #[trigger] column_name(n)[i] <= 'Z',
    decreases n,
{
    if n > 0 {
        let q = ((n - 1) / 26) as nat;
        lemma_column_name_letters(q);
        let d = (n - 1) % 26;
        assert('A' <= letter(d) <= 'Z');
        assert forall|i: int| 0 <= i < column_name(n).len() implies 'A' <= #[trigger] column_name(
            n,
        )[i] <= 'Z' by {
            if i < column_name(q).len() {
                assert(column_name(n)[i] == column_name(q)[i]);
            }
        }
    }
}

/// Distinct column numbers have distinct names.
proof fn lemma_column_name_injective(a: nat, b: nat)
    requires
        column_name(a) == column_name(b),
    ensures
        a == b,
    decreases a,
{
    lemma_column_name_empty(a);
    lemma_column_name_empty(b);
    if a > 0 {
        let qa = ((a - 1) / 26) as nat;
        let qb = ((b - 1) / 26) as nat;
        let na = column_name(a);
        let nb = column_name(b);
        assert(na.last() == letter((a - 1) % 26));
        assert(nb.last() == letter((b - 1) % 26));
        assert(na.drop_last() =~= column_name(qa));
        assert(nb.drop_last() =~= column_name(qb));
        assert((a - 1) % 26 == (b - 1) % 26);
        lemma_column_name_injective(qa, qb);
    }
}

/// Different columns get different labels: [`column_label`] gives distinct
/// columns distinct names.
pub proof fn lemma_column_labels_distinct(x: nat, y: nat)
    requires
        x != y,
    ensures
        column_name(x + 1) != column_name(y + 1),
{
    if column_name(x + 1) == column_name(y + 1) {
        lemma_column_name_injective(x + 1, y + 1);
    }
}

/// `a` comes before `b` in dictionary order: at the first position where they
/// differ, `a` has the smaller character.
pub open spec fn lex_less(a: Seq<char>, b: Seq<char>) -> bool {
    exists|k: int| 0 <= k < a.len() && k < b.len() && a.take(k) == b.take(k) && #[trigger] a[k] < b[k]
}

/// `a` comes before `b` in shortlex order: shorter first, then dictionary order.
pub open spec fn shortlex_less(a: Seq<char>, b: Seq<char>) -> bool {
    a.len() < b.len() || (a.len() == b.len() && lex_less(a, b))
}

/// Each column name comes before the next one in shortlex order.
proof fn lemma_column_name_increases(n: nat)
    ensures
        shortlex_less(column_name(n), column_name(n + 1)),
    decreases n,
{
    if n == 0 {
        assert(column_name(1) == column_name(0).push(letter(0)));
    } else {
        let q = ((n - 1) / 26) as nat;
        let d = (n - 1) % 26;
        let a = column_name(n);
        let b = column_name(n + 1);
        assert(a == column_name(q).push(letter(d)));
        if d < 25 {
            assert(n / 26 == q && n % 26 == d + 1);
            assert(b == column_name(q).push(letter(d + 1)));
            let k = column_name(q).len() as int;
            assert(a.take(k) =~= b.take(k));
            assert(a[k] < b[k]);
        } else {
            assert(n / 26 == q + 1 && n % 26 == 0);
            assert(b == column_name(q + 1).push(letter(0)));
            lemma_column_name_increases(q);
            let x = column_name(q);
            let y = column_name(q + 1);
            if x.len() == y.len() {
                let k = choose|k: int| 0 <= k < x.len() && k < y.len() && x.take(k) == y.take(k) && #[trigger] x[k] < y[k];
                assert(a.take(k) =~= x.take(k));
                assert(b.take(k) =~= y.take(k));
                assert(a[k] == x[k] && b[k] == y[k]);
            }
        }
    }
}

/// Column labels run in shortlex order: A, ..., Z, AA, AB, ..., each label
/// coming before the label of the next column.
pub proof fn lemma_column_labels_increase(x: nat)
    ensures
        shortlex_less(column_name(x + 1), column_name(x + 2)),
{
    lemma_column_name_increases(x + 1);
}

} // verus!
