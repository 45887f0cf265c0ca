//! The packed representation of a DNA sequence: two bits per nucleotide,
//! four nucleotides per 8-bit storage unit.

use vstd::prelude::*;

use crate::Nuc;
use crate::char_of_nuc;
use crate::code_of;
use crate::is_nuc_char;
use crate::nuc_of_char;
use crate::nucs_of_text;
use crate::text_of_nucs;
use crate::upper_char;
use crate::upper_text;
use crate::valid_text;

verus! {

/// The number of 8-bit storage units needed for `n` nucleotides:
/// `ceil(n / 4)`.
pub open spec fn num_units(n: nat) -> nat {
    (n + 3) / 4
}

/// The value accumulated by packing the nucleotides of `s` into one storage
/// unit by repeated shift-left-by-two-and-add. The last nucleotide of `s`
/// lands in the lowest two bits.
pub open spec fn unit_val(s: Seq<Nuc>) -> int
    decreases s.len(),
{
    if s.len() == 0 {
        0
    } else {
        unit_val(s.drop_last()) * 4 + code_of(s.last())
    }
}

/// The nucleotides that storage unit `u` holds: the `u`-th group of four,
/// truncated at the end of the sequence.
pub open spec fn unit_group(s: Seq<Nuc>, u: int) -> Seq<Nuc> {
    s.subrange(4 * u, if 4 * u + 4 <= s.len() { 4 * u + 4 } else { s.len() as int })
}

/// The storage units encoding a nucleotide sequence.
pub open spec fn units_of(s: Seq<Nuc>) -> Seq<u8> {
    Seq::new(num_units(s.len()), |u: int| unit_val(unit_group(s, u)) as u8)
}

/// The packed value of up to four nucleotides is nonnegative and fits in the
/// number of bits that the group's size calls for.
proof fn lemma_unit_val_bound(s: Seq<Nuc>)
    ensures
        0 <= unit_val(s),
        s.len() == 0 ==> unit_val(s) == 0,
        s.len() <= 1 ==> unit_val(s) < 4,
        s.len() <= 2 ==> unit_val(s) < 16,
        s.len() <= 3 ==> unit_val(s) < 64,
        s.len() <= 4 ==> unit_val(s) < 256,
    decreases s.len(),
{
    if s.len() > 0 {
        lemma_unit_val_bound(s.drop_last());
        assert(code_of(s.last()) < 4);
    }
}

/// Shifting a packed storage unit right by `2 * (s.len() - 1 - j)` bits and
/// masking the low two bits recovers the code of the `j`-th nucleotide of the
/// group.
proof fn lemma_unit_extract(s: Seq<Nuc>, v: u8, j: int, sh: usize)
    requires
        1 <= s.len() <= 4,
        0 <= j < s.len(),
        v as int == unit_val(s),
        sh == 2 * (s.len() - 1 - j),
    ensures
        (v >> sh) & 3 == code_of(s[j]),
    decreases s.len(),
{
    let t = s.drop_last();
    let c: u8 = code_of(s.last());
    lemma_unit_val_bound(t);
    assert(v as int == unit_val(t) * 4 + c);
    let u: u8 = unit_val(t) as u8;
    assert(u as int == unit_val(t));
    if j == s.len() - 1 {
        assert((v >> sh) & 3 == c) by (bit_vector)
            requires
                sh == 0usize,
                v == u * 4 + c,
                c < 4,
                u < 64,
        ;
    } else {
        let sh2: usize = (sh - 2) as usize;
        lemma_unit_extract(t, u, j, sh2);
        assert(t[j] == s[j]);
        assert((v >> sh) & 3 == (u >> sh2) & 3) by (bit_vector)
            requires
                v == u * 4 + c,
                c < 4,
                u < 64,
                2 <= sh <= 6,
                sh == sh2 + 2,
        ;
    }
}

/// Case invariance: a text and its upper-cased form are accepted by parsing
/// exactly alike, and, when accepted, they name the same nucleotide sequence
/// and so are encoded into the same storage units.
pub proof fn lemma_case_invariance(s: Seq<char>)
    ensures
        valid_text(upper_text(s)) == valid_text(s),
        valid_text(s) ==> nucs_of_text(upper_text(s)) == nucs_of_text(s),
        valid_text(s) ==> units_of(nucs_of_text(upper_text(s))) == units_of(nucs_of_text(s)),
{
    let u = upper_text(s);
    assert forall|i: int| 0 <= i < u.len() implies (is_nuc_char(#[trigger] u[i]) == is_nuc_char(
        s[i],
    )) by {
        assert(u[i] == upper_char(s[i]));
    }
    if valid_text(s) {
        assert(valid_text(u));
        assert(nucs_of_text(u) =~= nucs_of_text(s));
    }
    if valid_text(u) {
        assert forall|i: int| 0 <= i < s.len() implies is_nuc_char(#[trigger] s[i]) by {
            assert(is_nuc_char(u[i]));
        }
    }
}

/// Round trip: decoding every position of the parse of a valid text, and
/// naming each decoded nucleotide by its letter, gives back the text in
/// upper case.
pub proof fn lemma_round_trip(s: Seq<char>)
    requires
        valid_text(s),
    ensures
        text_of_nucs(nucs_of_text(s)) == upper_text(s),
{
    assert forall|i: int| 0 <= i < s.len() implies char_of_nuc(nuc_of_char(#[trigger] s[i]))
        == upper_char(s[i]) by {
        assert(is_nuc_char(s[i]));
    }
    assert(text_of_nucs(nucs_of_text(s)) =~= upper_text(s));
}

/// A DNA sequence stored two bits per nucleotide.
///
/// The nucleotides are packed four to an 8-bit storage unit; the logical
/// length is kept separately, so a trailing unit may be only partly filled.
/// The abstract value (the view) is the sequence of nucleotides it encodes.
pub struct PackedDna {
    nucs_vec: Vec<u8>,
    length: usize,
    seq: Ghost<Seq<Nuc>>,
}

/// An error that can occur when parsing a packed DNA sequence; it carries
/// the offending character.
#[derive(Debug)]
pub struct ParsePackedNucsError<T>(pub T);

/// An error that can occur when asking for a particular nucleotide; it
/// carries the out-of-range index.
#[derive(Debug)]
pub struct GetPackedNucsError(pub usize);

impl View for PackedDna {
    type V = Seq<Nuc>;

    closed spec fn view(&self) -> Seq<Nuc> {
        self.seq@
    }
}

impl PackedDna {
    #[verifier::type_invariant]
    spec fn wf(self) -> bool {
        &&& self.length == self.seq@.len()
        &&& self.nucs_vec@ == units_of(self.seq@)
    }

    /// Packs an already-decoded sequence of nucleotides. This construction
    /// cannot fail, and the resulting view is exactly the input sequence.
    pub fn from_iter(v: Vec<Nuc>) -> (r: PackedDna)
        ensures
            r@ == v@,
    {
        let n: usize = v.len();
        let mut packed_nucs: Vec<u8> = Vec::new();
        let mut nucs_unit: u8 = 0;
        let mut i: usize = 0;
        while i < n
            invariant
                n == v@.len(),
                i <= n,
                i == 0 ==> packed_nucs@.len() == 0,
                i > 0 ==> 4 * packed_nucs@.len() < i <= 4 * packed_nucs@.len() + 4,
                nucs_unit as int == unit_val(v@.subrange(4 * packed_nucs@.len() as int, i as int)),
                forall|u: int|
                    0 <= u < packed_nucs@.len() ==> (#[trigger] packed_nucs@[u]) as int == unit_val(
                        v@.subrange(4 * u, 4 * u + 4),
                    ),
            decreases n - i,
        {
            if i % 4 == 0 && i != 0 {
                proof {
                    let p: int = packed_nucs@.len() as int;
                    assert(i == 4 * p + 4) by {
                        assert(4 * p < i <= 4 * p + 4);
                        assert(i % 4 == 0);
                        assert((4 * p + 1) % 4 == 1 && (4 * p + 2) % 4 == 2 && (4 * p + 3) % 4
                            == 3) by (nonlinear_arith);
                    }
                }
                packed_nucs.push(nucs_unit);
                nucs_unit = 0;
                proof {
                    let p: int = packed_nucs@.len() as int;
                    assert(v@.subrange(4 * p, i as int).len() == 0);
                }
            }
            let ghost p: int = packed_nucs@.len() as int;
            let ghost g: Seq<Nuc> = v@.subrange(4 * p, i as int);
            proof {
                assert(i as int - 4 * p <= 3) by {
                    if i > 0 && i % 4 != 0 {
                        assert(4 * p < i <= 4 * p + 4);
                        assert((4 * p + 4) % 4 == 0) by (nonlinear_arith);
                    }
                }
                lemma_unit_val_bound(g);
            }
            let nuc = v[i];
            let code: u8 = match nuc {
                Nuc::A => 0,
                Nuc::C => 1,
                Nuc::G => 2,
                Nuc::T => 3,
            };
            proof {
                assert(code == code_of(v@[i as int]));
                assert((nucs_unit << 2u8) == nucs_unit * 4) by (bit_vector)
                    requires
                        nucs_unit < 64,
                ;
                let g2 = v@.subrange(4 * p, i as int + 1);
                assert(g2.drop_last() =~= g);
                assert(g2.last() == v@[i as int]);
                assert(unit_val(g2) == unit_val(g) * 4 + code_of(v@[i as int]));
            }
            nucs_unit = (nucs_unit << 2u8) + code;
            i += 1;
        }
        if n != 0 {
            packed_nucs.push(nucs_unit);
        }
        let ghost sq = v@;
        proof {
            let p: int = packed_nucs@.len() as int;
            if n == 0 {
                assert(num_units(sq.len()) == 0);
            } else {
                assert(4 * (p - 1) < n <= 4 * (p - 1) + 4);
                assert(num_units(sq.len()) == p) by {
                    let k: int = n - 4 * (p - 1);
                    assert(1 <= k <= 4);
                    assert((4 * (p - 1) + k + 3) / 4 == p) by (nonlinear_arith)
                        requires
                            1 <= k <= 4,
                    ;
                }
            }
            assert forall|u: int| 0 <= u < p implies (#[trigger] packed_nucs@[u]) as int == unit_val(
                unit_group(sq, u),
            ) by {
                if u < p - 1 || (n != 0 && 4 * (p - 1) + 4 == n && u == p - 1) {
                    assert(4 * u + 4 <= n);
                    assert(unit_group(sq, u) =~= sq.subrange(4 * u, 4 * u + 4));
                } else {
                    assert(u == p - 1 && 4 * u + 4 > n);
                    assert(unit_group(sq, u) =~= sq.subrange(4 * u, n as int));
                }
            }
            assert forall|u: int| 0 <= u < p implies packed_nucs@[u] == units_of(sq)[u] by {
                lemma_unit_val_bound(unit_group(sq, u));
            }
            assert(packed_nucs@ =~= units_of(sq));
        }
        PackedDna { nucs_vec: packed_nucs, length: n, seq: Ghost(sq) }
    }

    /// Parses a text into a packed sequence, case-insensitively.
    ///
    /// Succeeds exactly when every character of the text names a nucleotide,
    /// and then encodes the named sequence; otherwise it reports the first
    /// character that names none.
    pub fn from_str(s: &str) -> (r: Result<PackedDna, ParsePackedNucsError<char>>)
        ensures
            r is Ok <==> valid_text(s@),
            r matches Ok(p) ==> p@ == nucs_of_text(s@),
            r matches Err(e) ==> exists|i: int|
                #![auto]
                0 <= i < s@.len() && !is_nuc_char(s@[i]) && e.0 == s@[i] && (forall|j: int|
                    0 <= j < i ==> is_nuc_char(#[trigger] s@[j])),
    {
        let n: usize = s.unicode_len();
        let mut nucs: Vec<Nuc> = Vec::new();
        let mut i: usize = 0;
        while i < n
            invariant
                n == s@.len(),
                i <= n,
                nucs@ == nucs_of_text(s@.subrange(0, i as int)),
                forall|j: int| 0 <= j < i ==> is_nuc_char(#[trigger] s@[j]),
            decreases n - i,
        {
            let c = s.get_char(i);
            match Nuc::try_from(c) {
                Ok(nuc) => {
                    nucs.push(nuc);
                    proof {
                        assert(nucs@ =~= nucs_of_text(s@.subrange(0, i as int + 1)));
                    }
                },
                Err(e) => {
                    proof {
                        assert(!is_nuc_char(s@[i as int]));
                    }
                    return Err(ParsePackedNucsError(e.0));
                },
            }
            i += 1;
        }
        proof {
            assert(s@.subrange(0, n as int) =~= s@);
        }
        Ok(PackedDna::from_iter(nucs))
    }

    /// Decodes the nucleotide at a zero-based index.
    ///
    /// Succeeds exactly when the index is below the logical length, and then
    /// returns the nucleotide the view holds there; otherwise it reports the
    /// index.
    pub fn get(&self, idx: usize) -> (r: Result<Nuc, GetPackedNucsError>)
        ensures
            r is Ok <==> idx < self@.len(),
            r matches Ok(n) ==> n == self@[idx as int],
            r matches Err(e) ==> e.0 == idx,
    {
        proof {
            use_type_invariant(self);
        }
        if idx >= self.length {
            return Err(GetPackedNucsError(idx));
        }
        let ghost sq = self.seq@;
        let ghost l: int = self.length as int;
        let max_full_unit: usize = self.length / 4;
        let element_idx: usize = idx / 4;
        let bit_idx: usize = idx % 4;
        proof {
            assert(4 * (l / 4) <= l < 4 * (l / 4) + 4);
            assert(4 * (idx as int / 4) <= idx < 4 * (idx as int / 4) + 4);
            assert(element_idx < num_units(sq.len())) by {
                assert(4 * element_idx < l);
                assert(num_units(sq.len()) == (l + 3) / 4);
                assert((4 * element_idx + 4 + 3) / 4 > element_idx);
            }
            assert(self.nucs_vec@[element_idx as int] == units_of(sq)[element_idx as int]);
            lemma_unit_val_bound(unit_group(sq, element_idx as int));
        }
        let mut nuc: u8 = self.nucs_vec[element_idx];
        if idx >= max_full_unit * 4 {
            // the index falls in the trailing, possibly partial group
            let sh: usize = 2 * (self.length - idx - 1);
            proof {
                assert(element_idx == max_full_unit);
                assert(l - 4 * element_idx <= 3);
                let g = unit_group(sq, element_idx as int);
                assert(g =~= sq.subrange(4 * element_idx as int, l));
                let j: int = idx - 4 * element_idx;
                assert(g[j] == sq[idx as int]);
                lemma_unit_extract(g, nuc, j, sh);
            }
            nuc = nuc >> sh;
            nuc = nuc & 3;
        } else {
            // the index falls in a fully packed interior group
            let sh: usize = 2 * (3 - bit_idx);
            proof {
                assert(4 * element_idx + 4 <= 4 * max_full_unit);
                let g = unit_group(sq, element_idx as int);
                assert(g =~= sq.subrange(4 * element_idx as int, 4 * element_idx as int + 4));
                assert(g[bit_idx as int] == sq[idx as int]);
                lemma_unit_extract(g, nuc, bit_idx as int, sh);
            }
            nuc = nuc >> sh;
            nuc = nuc & 3;
        }
        proof {
            assert(nuc == code_of(sq[idx as int]));
        }
        match nuc {
            0u8 => Ok(Nuc::A),
            1u8 => Ok(Nuc::C),
            2u8 => Ok(Nuc::G),
            3u8 => Ok(Nuc::T),
            _ => Err(GetPackedNucsError(idx)),
        }
    }

    /// The logical length: the number of nucleotides the sequence holds.
    pub fn len(&self) -> (r: usize)
        ensures
            r == self@.len(),
    {
        proof {
            use_type_invariant(self);
        }
        self.length
    }

    /// Whether the sequence holds no nucleotides at all.
    pub fn is_empty(&self) -> (r: bool)
        ensures
            r == (self@.len() == 0),
    {
        proof {
            use_type_invariant(self);
        }
        self.length == 0
    }

    /// A copy of the backing storage units, for inspection; the caller
    /// cannot reach the internal state through it.
    pub fn vec(&self) -> (r: Vec<u8>)
        ensures
            r@ == units_of(self@),
    {
        proof {
            use_type_invariant(self);
        }
        let mut vec_new: Vec<u8> = Vec::new();
        let mut i: usize = 0;
        while i < self.nucs_vec.len()
            invariant
                i <= self.nucs_vec@.len(),
                vec_new@ == self.nucs_vec@.subrange(0, i as int),
            decreases self.nucs_vec@.len() - i,
        {
            vec_new.push(self.nucs_vec[i]);
            proof {
                assert(vec_new@ =~= self.nucs_vec@.subrange(0, i as int + 1));
            }
            i += 1;
        }
        proof {
            assert(vec_new@ =~= self.nucs_vec@);
        }
        vec_new
    }
}

} // verus!
