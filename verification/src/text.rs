//! Small text utilities shared by the modules.
use vstd::prelude::*;

verus! {

/// Compares two strings character by character.
pub fn str_eq(a: &str, b: &str) -> (r: bool)
    ensures
        r == (a@ == b@),
{
    let n = a.unicode_len();
    let m = b.unicode_len();
    if n != m {
        return false;
    }
    let mut i: usize = 0;
    while i < n
        invariant
            n == a@.len(),
            m == b@.len(),
            n == m,
            i <= n,
            forall|j: int| 0 <= j < i ==> a@[j] == b@[j],
        decreases n - i,
    {
        if a.get_char(i) != b.get_char(i) {
            return false;
        }
        i = i + 1;
    }
    assert(a@ =~= b@);
    true
}

/// `s` followed by spaces up to `width` characters (unchanged when already as wide).
pub open spec fn pad_right(s: Seq<char>, width: nat) -> Seq<char> {
    if s.len() < width {
        s + Seq::new((width - s.len()) as nat, |i: int| ' ')
    } else {
        s
    }
}

/// Padding keeps the text in front, makes it at least `width` characters long and no
/// longer than needed, and adds only spaces.
pub proof fn lemma_pad_right_shape(s: Seq<char>, width: nat)
    ensures
        pad_right(s, width).subrange(0, s.len() as int) == s,
        pad_right(s, width).len() == if s.len() < width { width } else { s.len() },
        forall|i: int| s.len() <= i < pad_right(s, width).len() ==> #[trigger] pad_right(s, width)[i] == ' ',
{
    assert(pad_right(s, width).subrange(0, s.len() as int) =~= s);
}

/// Appends `text` to `out`, followed by spaces up to `width` characters for `text`,
/// as `format!("{text:<width$}")` lays it out.
pub fn append_padded(out: &mut String, text: &str, width: usize)
    ensures
        final(out)@ == old(out)@ + pad_right(text@, width as nat),
{
    out.append(text);
    let n = text.unicode_len();
    let mut k: usize = n;
    while k < width
        invariant
            n == text@.len(),
            n <= k <= width || (n >= width && k == n),
            out@ == old(out)@ + text@ + Seq::new((k - n) as nat, |i: int| ' '),
        decreases width - k,
    {
        let ghost before = out@;
        out.append(" ");
        proof {
            reveal_strlit(" ");
            assert(Seq::new((k + 1 - n) as nat, |i: int| ' ') =~= Seq::new((k - n) as nat, |i: int| ' ').push(' '));
        }
        k = k + 1;
    }
    proof {
        if n < width {
            assert(pad_right(text@, width as nat) =~= text@ + Seq::new((width - n) as nat, |i: int| ' '));
        } else {
            assert(Seq::new((k - n) as nat, |i: int| ' ') =~= Seq::<char>::empty());
        }
    }
}

} // verus!
