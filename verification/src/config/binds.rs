//! Key bindings: the modifier mask, the text form of a binding, and the actions
//! a binding triggers.
use vstd::prelude::*;
use vstd::std_specs::iter::IteratorSpec;
use crate::text::str_eq;

verus! {

/// A set of keyboard modifiers, one bit each.
#[derive(Debug, Clone, Copy, PartialEq, Eq, Structural)]
pub struct ModMask {
    pub bits: u32,
}

/// The bit of the Shift modifier.
pub open spec fn shift_bit() -> u32 { 1 }
/// The bit of the Ctrl modifier.
pub open spec fn ctrl_bit() -> u32 { 2 }
/// The bit of the Alt modifier.
pub open spec fn alt_bit() -> u32 { 4 }
/// The bit of the Super (logo) modifier.
pub open spec fn super_bit() -> u32 { 8 }
/// Every bit that names a modifier.
pub open spec fn all_bits() -> u32 { 15 }

impl ModMask {
    /// No modifier.
    pub fn empty() -> (m: ModMask)
        ensures
            m.bits == 0,
    {
        ModMask { bits: 0 }
    }

    /// The Shift modifier alone.
    pub fn shift() -> (m: ModMask)
        ensures
            m.bits == shift_bit(),
    {
        ModMask { bits: 1 }
    }

    /// The Ctrl modifier alone.
    pub fn ctrl() -> (m: ModMask)
        ensures
            m.bits == ctrl_bit(),
    {
        ModMask { bits: 2 }
    }

    /// The Alt modifier alone.
    pub fn alt() -> (m: ModMask)
        ensures
            m.bits == alt_bit(),
    {
        ModMask { bits: 4 }
    }

    /// The Super (logo) modifier alone.
    pub fn super_key() -> (m: ModMask)
        ensures
            m.bits == super_bit(),
    {
        ModMask { bits: 8 }
    }

    /// The raw bits of the mask.
    pub fn bits(&self) -> (b: u32)
        ensures
            b == self.bits,
    {
        self.bits
    }

    /// Adds the modifiers of `other` to the mask.
    pub fn insert(&mut self, other: ModMask)
        ensures
            final(self).bits == old(self).bits | other.bits,
    {
        self.bits = self.bits | other.bits;
    }
}

/// After inserting a mask, the result holds it and everything it held before, inserting
/// it again changes nothing, and inserting only named modifiers sets only named bits.
pub proof fn lemma_insert_laws(a: u32, b: u32)
    ensures
        (a | b) & b == b,
        (a | b) & a == a,
        ((a | b) | b) == (a | b),
        (a <= all_bits() && b <= all_bits()) ==> (a | b) <= all_bits(),
{
    assert((a | b) & b == b) by (bit_vector);
    assert((a | b) & a == a) by (bit_vector);
    assert(((a | b) | b) == (a | b)) by (bit_vector);
    assert((a <= 15u32 && b <= 15u32) ==> (a | b) <= 15u32) by (bit_vector);
}

/// The parts of `s` between the occurrences of `sep`, in order, as `str::split` gives
/// them: `n` separators give `n + 1` parts, some of which may be empty.
pub open spec fn split_on(s: Seq<char>, sep: char) -> Seq<Seq<char>>
    decreases s.len(),
{
    if s.len() == 0 {
        seq![Seq::<char>::empty()]
    } else {
        let p = split_on(s.drop_last(), sep);
        if s.last() == sep {
            p.push(Seq::<char>::empty())
        } else {
            p.update(p.len() - 1, p.last().push(s.last()))
        }
    }
}

/// Splitting always gives at least one part.
pub proof fn lemma_split_nonempty(s: Seq<char>, sep: char)
    ensures
        split_on(s, sep).len() >= 1,
    decreases s.len(),
{
    if s.len() > 0 {
        lemma_split_nonempty(s.drop_last(), sep);
    }
}

/// The modifier a part of a binding names, if it names one.
pub open spec fn modifier_named(part: Seq<char>) -> Option<u32> {
    if part == "Shift"@ {
        Some(shift_bit())
    } else if part == "Ctrl"@ || part == "Control"@ {
        Some(ctrl_bit())
    } else if part == "Alt"@ {
        Some(alt_bit())
    } else if part == "Mod"@ || part == "Super"@ || part == "Logo"@ {
        Some(super_bit())
    } else {
        None
    }
}

/// The modifier names of a binding and their bits, as bitflags numbers them: `Shift` is
/// bit 0, `Ctrl` and `Control` bit 1, `Alt` bit 2, and `Mod`, `Super` and `Logo` bit 3;
/// every other part names a key. The four modifiers have distinct single bits.
pub proof fn lemma_modifier_table(part: Seq<char>)
    ensures
        modifier_named("Shift"@) == Some(1u32),
        modifier_named("Ctrl"@) == Some(2u32),
        modifier_named("Control"@) == Some(2u32),
        modifier_named("Alt"@) == Some(4u32),
        modifier_named("Mod"@) == Some(8u32),
        modifier_named("Super"@) == Some(8u32),
        modifier_named("Logo"@) == Some(8u32),
        modifier_named(part) is Some ==> (part == "Shift"@ || part == "Ctrl"@ || part == "Control"@ || part == "Alt"@
            || part == "Mod"@ || part == "Super"@ || part == "Logo"@),
        shift_bit() == 1u32 << 0u32 && ctrl_bit() == 1u32 << 1u32 && alt_bit() == 1u32 << 2u32 && super_bit() == 1u32 << 3u32,
        all_bits() == (shift_bit() | ctrl_bit() | alt_bit() | super_bit()),
{
    reveal_strlit("Shift");
    reveal_strlit("Ctrl");
    reveal_strlit("Control");
    reveal_strlit("Alt");
    reveal_strlit("Mod");
    reveal_strlit("Super");
    reveal_strlit("Logo");
    assert("Shift"@.len() == 5 && "Ctrl"@.len() == 4 && "Control"@.len() == 7 && "Alt"@.len() == 3);
    assert("Mod"@.len() == 3 && "Super"@.len() == 5 && "Logo"@.len() == 4);
    assert("Shift"@[0] == 'S' && "Ctrl"@[0] == 'C' && "Alt"@[0] == 'A' && "Mod"@[0] == 'M');
    assert("Super"@[1] == 'u' && "Shift"@[1] == 'h' && "Logo"@[0] == 'L');
    assert("Alt"@ != "Shift"@ && "Alt"@ != "Ctrl"@ && "Alt"@ != "Control"@);
    assert("Mod"@ != "Shift"@ && "Mod"@ != "Ctrl"@ && "Mod"@ != "Control"@ && "Mod"@ != "Alt"@);
    assert("Super"@ != "Shift"@ && "Super"@ != "Ctrl"@ && "Super"@ != "Control"@ && "Super"@ != "Alt"@);
    assert("Logo"@ != "Shift"@ && "Logo"@ != "Ctrl"@ && "Logo"@ != "Control"@ && "Logo"@ != "Alt"@);
    assert("Control"@ != "Shift"@ && "Ctrl"@ != "Shift"@);
    assert((1u32 << 0u32) == 1u32 && (1u32 << 1u32) == 2u32 && (1u32 << 2u32) == 4u32 && (1u32 << 3u32) == 8u32) by (bit_vector);
    assert((1u32 | 2u32 | 4u32 | 8u32) == 15u32) by (bit_vector);
}

/// Reading the parts of a binding from left to right: the modifiers collected and the
/// key part met so far, or `None` once a second key part has been met.
pub open spec fn scan_parts(parts: Seq<Seq<char>>) -> Option<(u32, Option<Seq<char>>)>
    decreases parts.len(),
{
    if parts.len() == 0 {
        Some((0u32, None))
    } else {
        match scan_parts(parts.drop_last()) {
            None => None,
            Some((mods, key)) => match modifier_named(parts.last()) {
                Some(bit) => Some((mods | bit, key)),
                None => if key is Some {
                    None
                } else {
                    Some((mods, Some(parts.last())))
                },
            },
        }
    }
}

/// What the text of a binding reads as: its modifier bits and the name of its key, or
/// the error message. `"a+b"` holds two keys; `"Shift+Ctrl"` none.
pub open spec fn key_bind_reading(s: Seq<char>) -> Result<(u32, Seq<char>), Seq<char>> {
    match scan_parts(split_on(s, '+')) {
        None => Err("multiple keys in bind: "@ + s),
        Some((mods, None)) => Err("no key specified"@),
        Some((mods, Some(key))) => Ok((mods, key)),
    }
}

/// A part without `+` splits into itself alone.
proof fn lemma_split_single(p: Seq<char>)
    requires
        !p.contains('+'),
    ensures
        split_on(p, '+') == seq![p],
    decreases p.len(),
{
    if p.len() == 0 {
        assert(p =~= Seq::<char>::empty());
    } else {
        let q = p.drop_last();
        assert(!q.contains('+')) by {
            if q.contains('+') {
                let i = choose|i: int| 0 <= i < q.len() && q[i] == '+';
                assert(p[i] == '+');
            }
        }
        lemma_split_single(q);
        assert(p[p.len() - 1] != '+');
        assert(q.push(p.last()) =~= p);
        assert(seq![q].last() == q);
        assert(seq![q].len() == 1);
        assert(seq![q].update(0, q.push(p.last())) =~= seq![p]);
    }
}

/// Writing a part and a `+` in front of a text puts that part in front of its parts.
proof fn lemma_split_prefix(p: Seq<char>, s: Seq<char>)
    requires
        !p.contains('+'),
    ensures
        split_on(p + "+"@ + s, '+') == seq![p] + split_on(s, '+'),
    decreases s.len(),
{
    reveal_strlit("+");
    let t = p + "+"@ + s;
    if s.len() == 0 {
        assert(t.drop_last() =~= p);
        lemma_split_single(p);
        assert(seq![p].push(Seq::<char>::empty()) =~= seq![p] + seq![Seq::<char>::empty()]);
    } else {
        lemma_split_prefix(p, s.drop_last());
        assert(t.drop_last() =~= p + "+"@ + s.drop_last());
        lemma_split_nonempty(s.drop_last(), '+');
        let x = split_on(s.drop_last(), '+');
        if s.last() == '+' {
            assert((seq![p] + x).push(Seq::<char>::empty()) =~= seq![p] + x.push(Seq::<char>::empty()));
        } else {
            assert((seq![p] + x).update(x.len() as int, x.last().push(s.last()))
                =~= seq![p] + x.update(x.len() - 1, x.last().push(s.last())));
        }
    }
}

/// The scan of a binding whose modifiers are widened by `bit`.
pub open spec fn with_modifier(scan: Option<(u32, Option<Seq<char>>)>, bit: u32) -> Option<(u32, Option<Seq<char>>)> {
    match scan {
        Some((mods, key)) => Some((bit | mods, key)),
        None => None,
    }
}

/// Scanning a modifier part first adds its bit to whatever the rest scans to.
proof fn lemma_scan_prefix(p: Seq<char>, bit: u32, parts: Seq<Seq<char>>)
    requires
        modifier_named(p) == Some(bit),
    ensures
        scan_parts(seq![p] + parts) == with_modifier(scan_parts(parts), bit),
    decreases parts.len(),
{
    let all = seq![p] + parts;
    if parts.len() == 0 {
        assert(all =~= seq![p]);
        assert(seq![p].drop_last() =~= Seq::<Seq<char>>::empty());
        assert(seq![p].last() == p);
        assert(scan_parts(Seq::<Seq<char>>::empty()) == Some((0u32, None::<Seq<char>>)));
        assert(0u32 | bit == bit | 0u32) by (bit_vector);
        assert(scan_parts(seq![p]) == Some((0u32 | bit, None::<Seq<char>>)));
    } else {
        lemma_scan_prefix(p, bit, parts.drop_last());
        assert(all.drop_last() =~= seq![p] + parts.drop_last());
        assert(all.last() == parts.last());
        match scan_parts(parts.drop_last()) {
            None => {},
            Some((mods, key)) => {
                match modifier_named(parts.last()) {
                    Some(c) => {
                        assert((bit | mods) | c == bit | (mods | c)) by (bit_vector);
                    },
                    None => {},
                }
            },
        }
    }
}

/// Modifiers may be written in front of any binding: putting a modifier name and `+`
/// before a binding's text adds that modifier and keeps its key; a text that lacked a
/// key still lacks one, and a text with two keys still has two.
pub proof fn lemma_modifier_prefix(m: Seq<char>, s: Seq<char>)
    requires
        modifier_named(m) is Some,
        !m.contains('+'),
    ensures
        scan_parts(split_on(m + "+"@ + s, '+')) == with_modifier(scan_parts(split_on(s, '+')), modifier_named(m).unwrap()),
        key_bind_reading(s) matches Ok((mods, key)) ==>
            key_bind_reading(m + "+"@ + s) == Ok::<(u32, Seq<char>), Seq<char>>((modifier_named(m).unwrap() | mods, key)),
        key_bind_reading(s) == Err::<(u32, Seq<char>), Seq<char>>("no key specified"@)
            ==> key_bind_reading(m + "+"@ + s) == Err::<(u32, Seq<char>), Seq<char>>("no key specified"@),
{
    lemma_split_prefix(m, s);
    lemma_scan_prefix(m, modifier_named(m).unwrap(), split_on(s, '+'));
    reveal_strlit("no key specified");
    reveal_strlit("multiple keys in bind: ");
    if scan_parts(split_on(s, '+')) is None {
        assert(key_bind_reading(s) == Err::<(u32, Seq<char>), Seq<char>>("multiple keys in bind: "@ + s));
        assert(("multiple keys in bind: "@ + s).len() != "no key specified"@.len() || ("multiple keys in bind: "@ + s)[0] == 'm');
    }
}

/// The key parts of a binding, in order: the parts that name no modifier.
pub open spec fn key_parts(parts: Seq<Seq<char>>) -> Seq<Seq<char>>
    decreases parts.len(),
{
    if parts.len() == 0 {
        Seq::empty()
    } else {
        let earlier = key_parts(parts.drop_last());
        if modifier_named(parts.last()) is None {
            earlier.push(parts.last())
        } else {
            earlier
        }
    }
}

/// Whether some part of a binding names the modifier of bit `bit`.
pub open spec fn names_modifier(parts: Seq<Seq<char>>, bit: u32) -> bool {
    exists|i: int| 0 <= i < parts.len() && modifier_named(#[trigger] parts[i]) == Some(bit)
}

/// The modifier bits of a set of named modifiers.
pub open spec fn bits_of(shift: bool, ctrl: bool, alt: bool, logo: bool) -> u32 {
    (if shift { 1u32 } else { 0u32 }) | (if ctrl { 2u32 } else { 0u32 }) | (if alt { 4u32 } else { 0u32 }) | (if logo {
        8u32
    } else {
        0u32
    })
}

/// The modifier bits a binding names, whatever their order and however often.
pub open spec fn modifier_bits(parts: Seq<Seq<char>>) -> u32 {
    bits_of(names_modifier(parts, 1), names_modifier(parts, 2), names_modifier(parts, 4), names_modifier(parts, 8))
}

/// Adding one named modifier to a set of modifier bits.
proof fn lemma_bits_add(s: bool, c: bool, a: bool, l: bool, bit: u32)
    requires
        bit == 1 || bit == 2 || bit == 4 || bit == 8,
    ensures
        bits_of(s, c, a, l) | bit == bits_of(s || bit == 1, c || bit == 2, a || bit == 4, l || bit == 8),
{
    assert(bit == 1u32 ==> bits_of(s, c, a, l) | bit == bits_of(true, c, a, l)) by (bit_vector);
    assert(bit == 2u32 ==> bits_of(s, c, a, l) | bit == bits_of(s, true, a, l)) by (bit_vector);
    assert(bit == 4u32 ==> bits_of(s, c, a, l) | bit == bits_of(s, c, true, l)) by (bit_vector);
    assert(bit == 8u32 ==> bits_of(s, c, a, l) | bit == bits_of(s, c, a, true)) by (bit_vector);
}

/// A part appended to a binding names a modifier exactly when it did before or the new
/// part names it.
proof fn lemma_names_modifier_push(parts: Seq<Seq<char>>, p: Seq<char>, bit: u32)
    ensures
        names_modifier(parts.push(p), bit) <==> (names_modifier(parts, bit) || modifier_named(p) == Some(bit)),
{
    let all = parts.push(p);
    if names_modifier(all, bit) {
        let i = choose|i: int| 0 <= i < all.len() && modifier_named(#[trigger] all[i]) == Some(bit);
        if i < parts.len() {
            assert(all[i] == parts[i]);
            assert(names_modifier(parts, bit));
        } else {
            assert(all[i] == p);
        }
    }
    if names_modifier(parts, bit) {
        let i = choose|i: int| 0 <= i < parts.len() && modifier_named(#[trigger] parts[i]) == Some(bit);
        assert(all[i] == parts[i]);
        assert(names_modifier(all, bit));
    }
    if modifier_named(p) == Some(bit) {
        assert(all[parts.len() as int] == p);
        assert(names_modifier(all, bit));
    }
}

/// What scanning a binding's parts gives, in closed form: more than one key part fails;
/// otherwise the named modifiers and the key part, if there is one.
pub proof fn lemma_scan_closed_form(parts: Seq<Seq<char>>)
    ensures
        scan_parts(parts) == if key_parts(parts).len() >= 2 {
            None
        } else {
            Some((modifier_bits(parts), if key_parts(parts).len() == 1 { Some(key_parts(parts)[0]) } else { None }))
        },
    decreases parts.len(),
{
    if parts.len() == 0 {
        assert(!names_modifier(parts, 1) && !names_modifier(parts, 2) && !names_modifier(parts, 4) && !names_modifier(parts, 8));
        assert(bits_of(false, false, false, false) == 0u32) by (bit_vector);
    } else {
        let prev = parts.drop_last();
        let p = parts.last();
        lemma_scan_closed_form(prev);
        assert(prev.push(p) =~= parts);
        lemma_names_modifier_push(prev, p, 1);
        lemma_names_modifier_push(prev, p, 2);
        lemma_names_modifier_push(prev, p, 4);
        lemma_names_modifier_push(prev, p, 8);
        match modifier_named(p) {
            Some(bit) => {
                lemma_bits_add(names_modifier(prev, 1), names_modifier(prev, 2), names_modifier(prev, 4), names_modifier(prev, 8), bit);
            },
            None => {
                if key_parts(prev).len() == 0 {
                    assert(key_parts(parts) =~= seq![p]);
                }
            },
        }
    }
}

/// How a binding's text reads, by the number of its parts that name no modifier: with
/// none it has no key; with one, that part is the key and the modifiers are every
/// modifier named; with more it holds several keys, and the message quotes the text.
pub proof fn lemma_reading_by_key_count(s: Seq<char>)
    ensures
        key_parts(split_on(s, '+')).len() == 0 ==> key_bind_reading(s) == Err::<(u32, Seq<char>), Seq<char>>("no key specified"@),
        key_parts(split_on(s, '+')).len() == 1 ==> key_bind_reading(s) == Ok::<(u32, Seq<char>), Seq<char>>(
            (modifier_bits(split_on(s, '+')), key_parts(split_on(s, '+'))[0]),
        ),
        key_parts(split_on(s, '+')).len() >= 2 ==> key_bind_reading(s) == Err::<(u32, Seq<char>), Seq<char>>(
            "multiple keys in bind: "@ + s,
        ),
{
    lemma_scan_closed_form(split_on(s, '+'));
}

/// Reordering the parts of a binding, or repeating its modifiers, does not change how it
/// reads: bindings that name the same modifiers and have the same key parts (or both
/// more than one) scan alike.
pub proof fn lemma_reordering_keeps_scan(ps: Seq<Seq<char>>, qs: Seq<Seq<char>>)
    requires
        forall|bit: u32| names_modifier(ps, bit) <==> names_modifier(qs, bit),
        key_parts(ps).len() >= 2 <==> key_parts(qs).len() >= 2,
        key_parts(ps).len() < 2 ==> key_parts(ps) == key_parts(qs),
    ensures
        scan_parts(ps) == scan_parts(qs),
{
    lemma_scan_closed_form(ps);
    lemma_scan_closed_form(qs);
    assert(names_modifier(ps, 1) == names_modifier(qs, 1));
    assert(names_modifier(ps, 2) == names_modifier(qs, 2));
    assert(names_modifier(ps, 4) == names_modifier(qs, 4));
    assert(names_modifier(ps, 8) == names_modifier(qs, 8));
}

/// The text of a binding from its parts, joined with `+`.
pub open spec fn join_parts(parts: Seq<Seq<char>>) -> Seq<char>
    decreases parts.len(),
{
    if parts.len() == 0 {
        Seq::empty()
    } else if parts.len() == 1 {
        parts[0]
    } else {
        join_parts(parts.drop_last()) + "+"@ + parts.last()
    }
}

/// Writing `+` and a part without `+` after a text adds that part after its parts.
proof fn lemma_split_suffix(a: Seq<char>, b: Seq<char>)
    requires
        !b.contains('+'),
    ensures
        split_on(a + "+"@ + b, '+') == split_on(a, '+').push(b),
    decreases b.len(),
{
    reveal_strlit("+");
    let t = a + "+"@ + b;
    if b.len() == 0 {
        assert(t.drop_last() =~= a);
        assert(t.last() == '+');
        assert(b =~= Seq::<char>::empty());
    } else {
        let b0 = b.drop_last();
        assert(!b0.contains('+')) by {
            if b0.contains('+') {
                let i = choose|i: int| 0 <= i < b0.len() && b0[i] == '+';
                assert(b[i] == '+');
            }
        }
        lemma_split_suffix(a, b0);
        assert(t.drop_last() =~= a + "+"@ + b0);
        assert(t.last() == b.last());
        assert(b[b.len() - 1] != '+');
        let x = split_on(a, '+').push(b0);
        assert(b0.push(b.last()) =~= b);
        assert(x.last() == b0);
        assert(x.update(x.len() - 1, b0.push(b.last())) =~= split_on(a, '+').push(b));
    }
}

/// Splitting parts joined with `+` gives them back, when no part holds a `+`.
pub proof fn lemma_split_join(parts: Seq<Seq<char>>)
    requires
        parts.len() >= 1,
        forall|i: int| 0 <= i < parts.len() ==> !(#[trigger] parts[i]).contains('+'),
    ensures
        split_on(join_parts(parts), '+') == parts,
    decreases parts.len(),
{
    if parts.len() == 1 {
        lemma_split_single(parts[0]);
        assert(seq![parts[0]] =~= parts);
    } else {
        let prev = parts.drop_last();
        assert forall|i: int| 0 <= i < prev.len() implies !(#[trigger] prev[i]).contains('+') by {
            assert(prev[i] == parts[i]);
        }
        lemma_split_join(prev);
        assert(!parts[parts.len() - 1].contains('+'));
        lemma_split_suffix(join_parts(prev), parts.last());
        assert(prev.push(parts.last()) =~= parts);
    }
}

/// The order of a binding's parts does not matter, nor does repeating a modifier: a
/// binding written with the same modifiers and the same key in any order reads the same;
/// one with no key still has none, and one with several keys still fails.
pub proof fn lemma_reordered_binding(ps: Seq<Seq<char>>, qs: Seq<Seq<char>>)
    requires
        ps.len() >= 1,
        qs.len() >= 1,
        forall|i: int| 0 <= i < ps.len() ==> !(#[trigger] ps[i]).contains('+'),
        forall|i: int| 0 <= i < qs.len() ==> !(#[trigger] qs[i]).contains('+'),
        forall|bit: u32| names_modifier(ps, bit) <==> names_modifier(qs, bit),
        key_parts(ps).len() >= 2 <==> key_parts(qs).len() >= 2,
        key_parts(ps).len() < 2 ==> key_parts(ps) == key_parts(qs),
    ensures
        key_bind_reading(join_parts(ps)) is Ok ==> key_bind_reading(join_parts(qs)) == key_bind_reading(join_parts(ps)),
        key_bind_reading(join_parts(ps)) == Err::<(u32, Seq<char>), Seq<char>>("no key specified"@)
            ==> key_bind_reading(join_parts(qs)) == key_bind_reading(join_parts(ps)),
        key_bind_reading(join_parts(ps)) is Err <==> key_bind_reading(join_parts(qs)) is Err,
{
    lemma_split_join(ps);
    lemma_split_join(qs);
    lemma_reordering_keeps_scan(ps, qs);
    reveal_strlit("no key specified");
    reveal_strlit("multiple keys in bind: ");
    if scan_parts(ps) is None {
        let m = "multiple keys in bind: "@ + join_parts(ps);
        assert(m[0] == 'm');
        assert(m.len() != "no key specified"@.len() || m[0] != "no key specified"@[0]);
    }
}

/// How often a part occurs among a binding's key parts: as often as among all its parts
/// when it names no modifier, never when it does.
proof fn lemma_key_parts_count(parts: Seq<Seq<char>>, p: Seq<char>)
    ensures
        key_parts(parts).to_multiset().count(p) == (if modifier_named(p) is None {
            parts.to_multiset().count(p)
        } else {
            0
        }),
    decreases parts.len(),
{
    if parts.len() == 0 {
        vstd::seq_lib::to_multiset_len(parts);
        vstd::seq_lib::to_multiset_len(key_parts(parts));
    } else {
        let prev = parts.drop_last();
        let x = parts.last();
        lemma_key_parts_count(prev, p);
        assert(prev.push(x) =~= parts);
        vstd::seq_lib::to_multiset_build(prev, x);
        if modifier_named(x) is None {
            vstd::seq_lib::to_multiset_build(key_parts(prev), x);
        }
    }
}

/// A binding written with its parts in another order, and with any of its modifiers
/// repeated (or written once where they were repeated), reads the same: the two texts
/// hold each part that names no modifier equally often, and the same modifier parts.
pub proof fn lemma_permuted_binding(ps: Seq<Seq<char>>, qs: Seq<Seq<char>>)
    requires
        ps.len() >= 1,
        qs.len() >= 1,
        forall|i: int| 0 <= i < ps.len() ==> !(#[trigger] ps[i]).contains('+'),
        forall|i: int| 0 <= i < qs.len() ==> !(#[trigger] qs[i]).contains('+'),
        forall|p: Seq<char>|
            modifier_named(p) is None ==> #[trigger] ps.to_multiset().count(p) == qs.to_multiset().count(p),
        forall|p: Seq<char>|
            #![trigger ps.contains(p)]
            #![trigger qs.contains(p)]
            modifier_named(p) is Some ==> (ps.contains(p) <==> qs.contains(p)),
    ensures
        key_bind_reading(join_parts(ps)) is Ok ==> key_bind_reading(join_parts(qs)) == key_bind_reading(join_parts(ps)),
        key_bind_reading(join_parts(ps)) == Err::<(u32, Seq<char>), Seq<char>>("no key specified"@)
            ==> key_bind_reading(join_parts(qs)) == key_bind_reading(join_parts(ps)),
        key_bind_reading(join_parts(ps)) is Err <==> key_bind_reading(join_parts(qs)) is Err,
{
    assert forall|bit: u32| names_modifier(ps, bit) <==> names_modifier(qs, bit) by {
        if names_modifier(ps, bit) {
            let i = choose|i: int| 0 <= i < ps.len() && modifier_named(#[trigger] ps[i]) == Some(bit);
            assert(ps.contains(ps[i]));
            let j = choose|j: int| 0 <= j < qs.len() && qs[j] == ps[i];
            assert(modifier_named(qs[j]) == Some(bit));
        }
        if names_modifier(qs, bit) {
            let j = choose|j: int| 0 <= j < qs.len() && modifier_named(#[trigger] qs[j]) == Some(bit);
            assert(qs.contains(qs[j]));
            let i = choose|i: int| 0 <= i < ps.len() && ps[i] == qs[j];
            assert(modifier_named(ps[i]) == Some(bit));
        }
    }
    let kp = key_parts(ps);
    let kq = key_parts(qs);
    assert(kp.to_multiset() =~= kq.to_multiset()) by {
        assert forall|p: Seq<char>| kp.to_multiset().count(p) == kq.to_multiset().count(p) by {
            lemma_key_parts_count(ps, p);
            lemma_key_parts_count(qs, p);
            if modifier_named(p) is None {
                assert(ps.to_multiset().count(p) == qs.to_multiset().count(p));
            }
        }
    }
    vstd::seq_lib::to_multiset_len(kp);
    vstd::seq_lib::to_multiset_len(kq);
    if kp.len() == 0 {
        assert(kp =~= kq);
    } else if kp.len() == 1 {
        let k = kp[0];
        assert(kp.contains(k));
        vstd::seq_lib::to_multiset_contains(kp, k);
        vstd::seq_lib::to_multiset_contains(kq, k);
        let j = choose|j: int| 0 <= j < kq.len() && kq[j] == k;
        assert(j == 0);
        assert(kp =~= kq);
    }
    lemma_reordered_binding(ps, qs);
}

/// The parts of a binding's text: its modifiers, and the name of its key, which the
/// keyboard layer turns into a keysym.
#[derive(Debug)]
pub struct KeyBindParts {
    pub mods: ModMask,
    pub key: String,
}

/// The modifier bit a part names, if any.
fn modifier_of(part: &str) -> (r: Option<u32>)
    ensures
        r == modifier_named(part@),
{
    proof {
        reveal_strlit("Shift");
        reveal_strlit("Ctrl");
        reveal_strlit("Control");
        reveal_strlit("Alt");
        reveal_strlit("Mod");
        reveal_strlit("Super");
        reveal_strlit("Logo");
    }
    if str_eq(part, "Shift") {
        Some(1)
    } else if str_eq(part, "Ctrl") || str_eq(part, "Control") {
        Some(2)
    } else if str_eq(part, "Alt") {
        Some(4)
    } else if str_eq(part, "Mod") || str_eq(part, "Super") || str_eq(part, "Logo") {
        Some(8)
    } else {
        None
    }
}

/// Reads the text of a key binding, such as `"Super+Shift+q"`: the parts between `+`
/// are modifier names (Shift; Ctrl or Control; Alt; Mod, Super or Logo) and at most
/// one key name. A second key is an error ("multiple keys in bind: " and the text),
/// and so is a binding with no key ("no key specified").
pub fn parse_key_bind(s: &str) -> (r: Result<KeyBindParts, String>)
    ensures
        match r {
            Ok(parts) => key_bind_reading(s@) == Ok::<(u32, Seq<char>), Seq<char>>((parts.mods.bits, parts.key@)),
            Err(msg) => key_bind_reading(s@) == Err::<(u32, Seq<char>), Seq<char>>(msg@),
        },
{
    let n = s.unicode_len();
    let ghost text = s@;
    let mut mods: u32 = 0;
    let mut key: Option<String> = None;
    let mut start: usize = 0;
    let ghost mut done: Seq<Seq<char>> = Seq::empty();
    let mut i: usize = 0;
    proof {
        assert(text.take(0) =~= Seq::<char>::empty());
    }
    while i < n
        invariant
            n == text.len(),
            text == s@,
            start <= i <= n,
            split_on(text.take(i as int), '+') == done.push(text.subrange(start as int, i as int)),
            scan_parts(done) == Some((mods, match key {
                Some(k) => Some(k@),
                None => None::<Seq<char>>,
            })),
        decreases n - i,
    {
        let c = s.get_char(i);
        let ghost prefix = text.take(i + 1);
        assert(prefix.drop_last() =~= text.take(i as int));
        assert(prefix.last() == c);
        if c == '+' {
            let part = s.substring_char(start, i);
            let ghost finished = done.push(part@);
            assert(finished.drop_last() =~= done);
            assert(split_on(prefix, '+') == split_on(text.take(i as int), '+').push(Seq::<char>::empty()));
            assert(split_on(prefix, '+').drop_last() =~= finished);
            match modifier_of(part) {
                Some(bit) => {
                    mods = mods | bit;
                },
                None => {
                    if key.is_some() {
                        let mut msg = String::from_str("multiple keys in bind: ");
                        msg.append(s);
                        proof {
                            lemma_scan_stays_failed(text, i as int + 1, finished);
                        }
                        return Err(msg);
                    }
                    key = Some(String::from_str(part));
                },
            }
            proof {
                done = finished;
                assert(text.subrange(i + 1, i + 1) =~= Seq::<char>::empty());
            }
            start = i + 1;
        } else {
            proof {
                lemma_split_nonempty(text.take(i as int), '+');
                assert(text.subrange(start as int, i + 1) =~= text.subrange(start as int, i as int).push(c));
                assert(split_on(prefix, '+') =~= done.push(text.subrange(start as int, i + 1)));
            }
        }
        i = i + 1;
    }
    let part = s.substring_char(start, n);
    let ghost parts = done.push(part@);
    proof {
        assert(text.take(n as int) =~= text);
        assert(parts.drop_last() =~= done);
    }
    match modifier_of(part) {
        Some(bit) => {
            mods = mods | bit;
        },
        None => {
            if key.is_some() {
                let mut msg = String::from_str("multiple keys in bind: ");
                msg.append(s);
                return Err(msg);
            }
            key = Some(String::from_str(part));
        },
    }
    match key {
        Some(k) => Ok(KeyBindParts { mods: ModMask { bits: mods }, key: k }),
        None => Err(String::from_str("no key specified")),
    }
}

/// Once a second key has been met, reading further parts never recovers.
proof fn lemma_scan_stays_failed(text: Seq<char>, i: int, done: Seq<Seq<char>>)
    requires
        0 <= i <= text.len(),
        scan_parts(done) is None,
        split_on(text.take(i), '+').drop_last() == done,
    ensures
        scan_parts(split_on(text, '+')) is None,
    decreases text.len() - i,
{
    lemma_split_nonempty(text.take(i), '+');
    if i == text.len() {
        assert(text.take(i) =~= text);
        let p = split_on(text, '+');
        assert(p =~= done.push(p.last()));
        assert(p.drop_last() =~= done);
    } else {
        let next = text.take(i + 1);
        assert(next.drop_last() =~= text.take(i));
        let p = split_on(text.take(i), '+');
        let q = split_on(next, '+');
        if text[i] == '+' {
            assert(q.drop_last() =~= p);
            assert(p =~= done.push(p.last()));
            assert(p.drop_last() =~= done);
            assert(scan_parts(p) is None);
        } else {
            assert(q.drop_last() =~= done);
        }
        lemma_scan_stays_failed(text, i + 1, q.drop_last());
    }
}

} // verus!

verus! {

/// A key binding: the modifiers to hold and the keysym of the key to press.
#[derive(Debug, Clone, Copy, PartialEq, Eq, Structural)]
pub struct KeyBind {
    pub mods: ModMask,
    pub sym: u32,
}

impl KeyBind {
    /// The binding of parsed parts, once the key's name has been looked up as `sym`.
    pub fn from_parts(parts: KeyBindParts, sym: u32) -> (k: KeyBind)
        ensures
            k.mods == parts.mods,
            k.sym == sym,
    {
        KeyBind { mods: parts.mods, sym }
    }
}

/// What a binding does when its keys are pressed.
#[derive(Debug, Clone, PartialEq)]
pub enum Actions {
    Quit,
    CloseWindow,
    Spawn(Vec<String>),
    SpawnSh(String),
    /// Trigger a vt-switch
    VtSwitch(i32),
    /// Switch the current screen
    Screen(usize),
    ScaleUp,
    ScaleDown,
    TogglePreview,
    RotateOutput,
    ToggleTint,
    ToggleDecorations,
    /// Do nothing more (written `None` in the configuration)
    DoNothing,
}

/// One key binding and the actions it runs, in order.
#[derive(Debug, PartialEq)]
pub struct Bind {
    pub key_register: KeyBind,
    pub actions: Vec<Actions>,
}

/// The key bindings of the configuration, in the order they are written.
#[derive(Debug)]
pub struct Binds(pub Vec<Bind>);

impl core::ops::Deref for Binds {
    type Target = [Bind];

    fn deref(&self) -> (s: &[Bind])
        ensures
            s@ == self.0@,
    {
        self.0.as_slice()
    }
}

impl IntoIterator for Binds {
    type Item = Bind;
    type IntoIter = std::vec::IntoIter<Bind>;

    fn into_iter(self) -> (it: std::vec::IntoIter<Bind>)
        ensures
            it.remaining() == self.0@,
    {
        self.0.into_iter()
    }
}

impl<'a> IntoIterator for &'a Binds {
    type Item = &'a Bind;
    type IntoIter = std::slice::Iter<'a, Bind>;

    fn into_iter(self) -> (it: std::slice::Iter<'a, Bind>)
        ensures
            it.remaining() == self.0@.map_values(|b: Bind| &b),
    {
        self.0.iter()
    }
}

} // verus!
