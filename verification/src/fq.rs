//! Elements of the BLS12-377 scalar field, held as their canonical
//! little-endian encoding.
use vstd::prelude::*;

verus! {

/// The order of the field: the BLS12-377 scalar field prime.
pub open spec fn q() -> nat {
    8444461749428370424248824938781546531375899335154063827935233455917409239041nat
}

/// The weight of the byte at position `n` of a little-endian encoding: `256^n`.
pub open spec fn byte_weight(n: nat) -> nat
    decreases n,
{
    if n == 0 {
        1
    } else {
        256 * byte_weight((n - 1) as nat)
    }
}

/// The number that a little-endian byte string encodes.
pub open spec fn le_value(bytes: Seq<u8>) -> nat
    decreases bytes.len(),
{
    if bytes.len() == 0 {
        0
    } else {
        le_value(bytes.drop_last()) + byte_weight((bytes.len() - 1) as nat) * (bytes.last() as nat)
    }
}

/// A byte string whose bytes are all zero encodes zero.
pub proof fn lemma_le_value_zeros(bytes: Seq<u8>)
    requires
        forall|i: int| 0 <= i < bytes.len() ==> bytes[i] == 0,
    ensures
        le_value(bytes) == 0,
    decreases bytes.len(),
{
    if bytes.len() > 0 {
        lemma_le_value_zeros(bytes.drop_last());
    }
}

/// A little-endian encoding of `len` bytes is below `256^len`.
pub proof fn lemma_le_value_bound(bytes: Seq<u8>)
    ensures
        le_value(bytes) < byte_weight(bytes.len()),
    decreases bytes.len(),
{
    if bytes.len() > 0 {
        let n = (bytes.len() - 1) as nat;
        lemma_le_value_bound(bytes.drop_last());
        let p = le_value(bytes.drop_last());
        let w = byte_weight(n);
        let l = bytes.last() as nat;
        assert(p + w * l < 256 * w) by (nonlinear_arith)
            requires
                p < w,
                l <= 255,
        ;
    }
}

/// Two encodings of the same length that encode the same number are equal.
pub proof fn lemma_le_value_injective(a: Seq<u8>, b: Seq<u8>)
    requires
        a.len() == b.len(),
        le_value(a) == le_value(b),
    ensures
        a == b,
    decreases a.len(),
{
    if a.len() > 0 {
        let n = (a.len() - 1) as nat;
        lemma_le_value_bound(a.drop_last());
        lemma_le_value_bound(b.drop_last());
        let pa = le_value(a.drop_last());
        let pb = le_value(b.drop_last());
        let w = byte_weight(n);
        let la = a.last() as int;
        let lb = b.last() as int;
        assert(la == lb && pa == pb) by (nonlinear_arith)
            requires
                pa + w * la == pb + w * lb,
                0 <= pa < w,
                0 <= pb < w,
                0 <= la,
                0 <= lb,
        ;
        lemma_le_value_injective(a.drop_last(), b.drop_last());
        assert(a =~= a.drop_last().push(a.last()));
        assert(b =~= b.drop_last().push(b.last()));
    } else {
        assert(a =~= b);
    }
}

/// Bytes past position `k` that are all zero do not change the encoded number.
pub proof fn lemma_le_value_zero_tail(bytes: Seq<u8>, k: int)
    requires
        0 <= k <= bytes.len(),
        forall|j: int| k <= j < bytes.len() ==> bytes[j] == 0,
    ensures
        le_value(bytes) == le_value(bytes.take(k)),
    decreases bytes.len(),
{
    if bytes.len() > k {
        lemma_le_value_zero_tail(bytes.drop_last(), k);
        assert(bytes.drop_last().take(k) =~= bytes.take(k));
    } else {
        assert(bytes.take(k) =~= bytes);
    }
}

/// Where two encodings of the same length agree above position `k` and the
/// first one has the smaller byte at `k`, it encodes the smaller number.
pub proof fn lemma_le_value_lex(a: Seq<u8>, b: Seq<u8>, k: int)
    requires
        a.len() == b.len(),
        0 <= k < a.len(),
        a[k] < b[k],
        forall|j: int| k < j < a.len() ==> a[j] == b[j],
    ensures
        le_value(a) < le_value(b),
    decreases a.len(),
{
    let n = (a.len() - 1) as nat;
    if k == n {
        lemma_le_value_bound(a.drop_last());
        let pa = le_value(a.drop_last());
        let pb = le_value(b.drop_last());
        let w = byte_weight(n);
        let la = a.last() as int;
        let lb = b.last() as int;
        assert(pa + w * la < pb + w * lb) by (nonlinear_arith)
            requires
                0 <= pa < w,
                0 <= pb,
                0 <= la < lb,
        ;
    } else {
        lemma_le_value_lex(a.drop_last(), b.drop_last(), k);
    }
}

/// The little-endian encoding of `q()`.
pub open spec fn q_bytes() -> Seq<u8> {
    seq![
        1u8, 0u8, 0u8, 0u8, 0u8, 128u8, 17u8, 10u8, 1u8, 0u8, 0u8, 208u8, 254u8, 118u8, 170u8, 89u8,
        1u8, 176u8, 55u8, 92u8, 30u8, 77u8, 180u8, 96u8, 86u8, 165u8, 44u8, 154u8, 94u8, 101u8,
        171u8, 18u8,
    ]
}

/// `q_bytes()` encodes `q()`.
pub proof fn lemma_q_bytes()
    ensures
        q_bytes().len() == 32,
        le_value(q_bytes()) == q(),
{
    reveal_with_fuel(byte_weight, 2);
    let s = q_bytes();
    assert(le_value(s.take(0)) == 0);
    assert(byte_weight(0) == 1nat);
    assert(s.take(1).drop_last() =~= s.take(0));
    assert(s.take(1).last() == 1u8);
    assert(le_value(s.take(1)) == 1nat);
    assert(byte_weight(1) == 256nat);
    assert(s.take(2).drop_last() =~= s.take(1));
    assert(s.take(2).last() == 0u8);
    assert(le_value(s.take(2)) == 1nat);
    assert(byte_weight(2) == 65536nat);
    assert(s.take(3).drop_last() =~= s.take(2));
    assert(s.take(3).last() == 0u8);
    assert(le_value(s.take(3)) == 1nat);
    assert(byte_weight(3) == 16777216nat);
    assert(s.take(4).drop_last() =~= s.take(3));
    assert(s.take(4).last() == 0u8);
    assert(le_value(s.take(4)) == 1nat);
    assert(byte_weight(4) == 4294967296nat);
    assert(s.take(5).drop_last() =~= s.take(4));
    assert(s.take(5).last() == 0u8);
    assert(le_value(s.take(5)) == 1nat);
    assert(byte_weight(5) == 1099511627776nat);
    assert(s.take(6).drop_last() =~= s.take(5));
    assert(s.take(6).last() == 128u8);
    assert(le_value(s.take(6)) == 140737488355329nat);
    assert(byte_weight(6) == 281474976710656nat);
    assert(s.take(7).drop_last() =~= s.take(6));
    assert(s.take(7).last() == 17u8);
    assert(le_value(s.take(7)) == 4925812092436481nat);
    assert(byte_weight(7) == 72057594037927936nat);
    assert(s.take(8).drop_last() =~= s.take(7));
    assert(s.take(8).last() == 10u8);
    assert(le_value(s.take(8)) == 725501752471715841nat);
    assert(byte_weight(8) == 18446744073709551616nat);
    assert(s.take(9).drop_last() =~= s.take(8));
    assert(s.take(9).last() == 1u8);
    assert(le_value(s.take(9)) == 19172245826181267457nat);
    assert(byte_weight(9) == 4722366482869645213696nat);
    assert(s.take(10).drop_last() =~= s.take(9));
    assert(s.take(10).last() == 0u8);
    assert(le_value(s.take(10)) == 19172245826181267457nat);
    assert(byte_weight(10) == 1208925819614629174706176nat);
    assert(s.take(11).drop_last() =~= s.take(10));
    assert(s.take(11).last() == 0u8);
    assert(le_value(s.take(11)) == 19172245826181267457nat);
    assert(byte_weight(11) == 309485009821345068724781056nat);
    assert(s.take(12).drop_last() =~= s.take(11));
    assert(s.take(12).last() == 208u8);
    assert(le_value(s.take(12)) == 64372882062012020120935727105nat);
    assert(byte_weight(12) == 79228162514264337593543950336nat);
    assert(s.take(13).drop_last() =~= s.take(12));
    assert(s.take(13).last() == 254u8);
    assert(le_value(s.take(13)) == 20188326160685153768881099112449nat);
    assert(byte_weight(13) == 20282409603651670423947251286016nat);
    assert(s.take(14).drop_last() =~= s.take(13));
    assert(s.take(14).last() == 118u8);
    assert(le_value(s.take(14)) == 2413512659391582263794656750862337nat);
    assert(byte_weight(14) == 5192296858534827628530496329220096nat);
    assert(s.take(15).drop_last() =~= s.take(14));
    assert(s.take(15).last() == 170u8);
    assert(le_value(s.take(15)) == 885103978610312279113979032718278657nat);
    assert(byte_weight(15) == 1329227995784915872903807060280344576nat);
    assert(s.take(16).drop_last() =~= s.take(15));
    assert(s.take(16).last() == 89u8);
    assert(le_value(s.take(16)) == 119186395603467824967552807397668945921nat);
    assert(byte_weight(16) == 340282366920938463463374607431768211456nat);
    assert(s.take(17).drop_last() =~= s.take(16));
    assert(s.take(17).last() == 1u8);
    assert(le_value(s.take(17)) == 459468762524406288430927414829437157377nat);
    assert(byte_weight(17) == 87112285931760246646623899502532662132736nat);
    assert(s.take(18).drop_last() =~= s.take(17));
    assert(s.take(18).last() == 176u8);
    assert(le_value(s.take(18)) == 15332221792752327816094237239860577972518913nat);
    assert(byte_weight(18) == 22300745198530623141535718272648361505980416nat);
    assert(s.take(19).drop_last() =~= s.take(18));
    assert(s.take(19).last() == 55u8);
    assert(le_value(s.take(19)) == 1241873207711936600600558742235520460801441793nat);
    assert(byte_weight(19) == 5708990770823839524233143877797980545530986496nat);
    assert(s.take(20).drop_last() =~= s.take(19));
    assert(s.take(20).last() == 92u8);
    assert(le_value(s.take(20)) == 526469024123505172830049795499649730649652199425nat);
    assert(byte_weight(20) == 1461501637330902918203684832716283019655932542976nat);
    assert(s.take(21).drop_last() =~= s.take(20));
    assert(s.take(21).last() == 30u8);
    assert(le_value(s.take(21)) == 44371518144050592718940594776988140320327628488705nat);
    assert(byte_weight(21) == 374144419156711147060143317175368453031918731001856nat);
    assert(s.take(22).drop_last() =~= s.take(21));
    assert(s.take(22).last() == 77u8);
    assert(le_value(s.take(22)) == 28853491793210808916349976017280359023778069915631617nat);
    assert(byte_weight(22) == 95780971304118053647396689196894323976171195136475136nat);
    assert(s.take(23).drop_last() =~= s.take(22));
    assert(s.take(23).last() == 180u8);
    assert(le_value(s.take(23)) == 17269428326534460465447754031458258674734593194481156097nat);
    assert(byte_weight(23) == 24519928653854221733733552434404946937899825954937634816nat);
    assert(s.take(24).drop_last() =~= s.take(23));
    assert(s.take(24).last() == 96u8);
    assert(le_value(s.take(24)) == 2371182579096539746903868787734333164713117884868494098433nat);
    assert(byte_weight(24) == 6277101735386680763835789423207666416102355444464034512896nat);
    assert(s.take(25).drop_last() =~= s.take(24));
    assert(s.take(25).last() == 86u8);
    assert(le_value(s.take(25)) == 542201931822351085436781759183593644949515686108775462207489nat);
    assert(byte_weight(25) == 1606938044258990275541962092341162602522202993782792835301376nat);
    assert(s.take(26).drop_last() =~= s.take(25));
    assert(s.take(26).last() == 165u8);
    assert(le_value(s.take(26)) == 265686979234555746549860526995475423061113009660269593286934529nat);
    assert(byte_weight(26) == 411376139330301510538742295639337626245683966408394965837152256nat);
    assert(s.take(27).drop_last() =~= s.take(26));
    assert(s.take(27).last() == 44u8);
    assert(le_value(s.take(27)) == 18366237109767822210254521535126330977871207531629648090121633793nat);
    assert(byte_weight(27) == 105312291668557186697918027683670432318895095400549111254310977536nat);
    assert(s.take(28).drop_last() =~= s.take(27));
    assert(s.take(28).last() == 154u8);
    assert(le_value(s.take(28)) == 16236459154067574573689630784820372908087715899216192781254012174337nat);
    assert(byte_weight(28) == 26959946667150639794667015087019630673637144422540572481103610249216nat);
    assert(s.take(29).drop_last() =~= s.take(28));
    assert(s.take(29).last() == 94u8);
    assert(le_value(s.take(29)) == 2550471445866227715272389048964665656229979291618030006004993375600641nat);
    assert(byte_weight(29) == 6901746346790563787434755862277025452451108972170386555162524223799296nat);
    assert(s.take(30).drop_last() =~= s.take(29));
    assert(s.take(30).last() == 101u8);
    assert(le_value(s.take(30)) == 699626852471713170246182731138944236353791985480827072077419939979329537nat);
    assert(byte_weight(30) == 1766847064778384329583297500742918515827483896875618958121606201292619776nat);
    assert(s.take(31).drop_last() =~= s.take(30));
    assert(s.take(31).last() == 171u8);
    assert(le_value(s.take(31)) == 302830474929575433528990055358178010442853538351211668910872080361017311233nat);
    assert(byte_weight(31) == 452312848583266388373324160190187140051835877600158453279131187530910662656nat);
    assert(s.take(32).drop_last() =~= s.take(31));
    assert(s.take(32).last() == 18u8);
    assert(le_value(s.take(32)) == 8444461749428370424248824938781546531375899335154063827935233455917409239041nat);
    assert(s.take(32) =~= s);
}

/// Whether `bytes` encodes a number below `q()`, found by comparing with the
/// encoding of `q()` from the most significant byte down.
fn is_canonical(bytes: &[u8; 32]) -> (r: bool)
    ensures
        r == (le_value(bytes@) < q()),
{
    let q_le: [u8; 32] = [
        1, 0, 0, 0, 0, 128, 17, 10, 1, 0, 0, 208, 254, 118, 170, 89, 1, 176, 55, 92, 30, 77, 180,
        96, 86, 165, 44, 154, 94, 101, 171, 18,
    ];
    proof {
        lemma_q_bytes();
        assert(q_le@ =~= q_bytes());
    }
    let mut k: usize = 32;
    while k > 0
        invariant
            k <= 32,
            q_le@ == q_bytes(),
            le_value(q_le@) == q(),
            forall|j: int| k <= j < 32 ==> bytes@[j] == q_le@[j],
        decreases k,
    {
        k = k - 1;
        if bytes[k] < q_le[k] {
            proof {
                lemma_le_value_lex(bytes@, q_le@, k as int);
            }
            return true;
        }
        if bytes[k] > q_le[k] {
            proof {
                lemma_le_value_lex(q_le@, bytes@, k as int);
            }
            return false;
        }
    }
    proof {
        assert(bytes@ =~= q_le@);
    }
    false
}

/// Multiplies two canonically encoded field elements with the `*` of
/// `decaf377::Fq`, and returns the canonical encoding of the product (from
/// `decaf377::Fq::to_bytes`). The claim is that this is the product of the two
/// numbers modulo the field order.
#[verifier::external_body]
fn decaf377_mul(a: &[u8; 32], b: &[u8; 32]) -> (r: [u8; 32])
    requires
        le_value(a@) < q(),
        le_value(b@) < q(),
    ensures
        le_value(r@) == (le_value(a@) * le_value(b@)) % q(),
{
    let x = decaf377::Fq::from_bytes_checked(a).unwrap();
    let y = decaf377::Fq::from_bytes_checked(b).unwrap();
    (x * y).to_bytes()
}

/// An element of `Fq`, stored as its canonical 32-byte little-endian encoding.
#[derive(Clone, Copy, Debug)]
pub struct Fq {
    bytes: [u8; 32],
}

impl View for Fq {
    type V = nat;

    /// The field element as a number in `0..q()`.
    closed spec fn view(&self) -> nat {
        le_value(self.bytes@)
    }
}

impl PartialEq for Fq {
    fn eq(&self, other: &Fq) -> (r: bool) {
        let mut i: usize = 0;
        while i < 32
            invariant
                0 <= i <= 32,
                forall|k: int| 0 <= k < i ==> self.bytes@[k] == other.bytes@[k],
            decreases 32 - i,
        {
            if self.bytes[i] != other.bytes[i] {
                proof {
                    if le_value(self.bytes@) == le_value(other.bytes@) {
                        lemma_le_value_injective(self.bytes@, other.bytes@);
                    }
                }
                return false;
            }
            i = i + 1;
        }
        proof {
            assert(self.bytes@ =~= other.bytes@);
        }
        true
    }
}

impl vstd::std_specs::cmp::PartialEqSpecImpl for Fq {
    open spec fn obeys_eq_spec() -> bool {
        true
    }

    open spec fn eq_spec(&self, other: &Fq) -> bool {
        self@ == other@
    }
}

impl Eq for Fq {
}

impl Fq {
    #[verifier::type_invariant]
    spec fn canonical(self) -> bool {
        le_value(self.bytes@) < q()
    }

    /// The additive identity.
    pub fn zero() -> (r: Fq)
        ensures
            r@ == 0,
    {
        let bytes = [0u8; 32];
        proof {
            lemma_le_value_zeros(bytes@);
        }
        Fq { bytes }
    }

    /// The field element `n`.
    pub fn from_u64(n: u64) -> (r: Fq)
        ensures
            r@ == n as nat,
    {
        let mut bytes = [0u8; 32];
        let mut x: u64 = n;
        let mut i: usize = 0;
        proof {
            reveal_with_fuel(byte_weight, 9);
            assert(bytes@.take(0) =~= Seq::<u8>::empty());
            assert(le_value(bytes@.take(0)) == 0);
            assert(byte_weight(0) == 1);
            assert(n == le_value(bytes@.take(0)) + byte_weight(0) * x);
        }
        while i < 8
            invariant
                0 <= i <= 8,
                forall|k: int| i <= k < 32 ==> bytes@[k] == 0,
                n == le_value(bytes@.take(i as int)) + byte_weight(i as nat) * x,
                x < byte_weight((8 - i) as nat),
            decreases 8 - i,
        {
            let ghost old_bytes = bytes@;
            let ghost old_x = x;
            let b = (x % 256) as u8;
            bytes[i] = b;
            x = x / 256;
            proof {
                let ii = i as int;
                assert(bytes@.take(ii + 1).drop_last() =~= old_bytes.take(ii));
                assert(bytes@.take(ii + 1).last() == b);
                let l = le_value(old_bytes.take(ii));
                let w = byte_weight(i as nat);
                let v = byte_weight((7 - i) as nat);
                assert(byte_weight((8 - i) as nat) == 256 * v);
                assert(n == l + w * (b as int) + (256 * w) * x && x < v) by (nonlinear_arith)
                    requires
                        n == l + w * old_x,
                        old_x < 256 * v,
                        b == old_x % 256,
                        x == old_x / 256,
                ;
            }
            i = i + 1;
        }
        proof {
            lemma_le_value_zero_tail(bytes@, 8);
            assert(0x1_0000_0000_0000_0000nat < q());
        }
        Fq { bytes }
    }

    /// The field element `1`.
    pub fn one() -> (r: Fq)
        ensures
            r@ == 1,
    {
        Fq::from_u64(1)
    }

    /// The element that the little-endian encoding `bytes` stands for, or
    /// `None` where `bytes` is not canonical (encodes a number of at least `q()`).
    pub fn from_bytes_checked(bytes: [u8; 32]) -> (r: Option<Fq>)
        ensures
            r is Some <==> le_value(bytes@) < q(),
            r matches Some(x) ==> x@ == le_value(bytes@) && x.to_bytes_spec() == bytes,
    {
        if is_canonical(&bytes) {
            Some(Fq { bytes })
        } else {
            None
        }
    }

    /// The canonical little-endian encoding of this element.
    pub closed spec fn to_bytes_spec(self) -> [u8; 32] {
        self.bytes
    }

    /// The canonical little-endian encoding of this element.
    pub fn to_bytes(&self) -> (r: [u8; 32])
        ensures
            r == self.to_bytes_spec(),
            le_value(r@) == self@,
            self@ < q(),
    {
        proof {
            use_type_invariant(self);
        }
        self.bytes
    }

    /// Two elements with the same value are the same element.
    pub proof fn lemma_view_injective(a: Fq, b: Fq)
        requires
            a@ == b@,
        ensures
            a == b,
    {
        lemma_le_value_injective(a.bytes@, b.bytes@);
        assert(a.bytes =~= b.bytes);
    }
}

impl Default for Fq {
    /// The additive identity, as `decaf377::Fq::default` gives it.
    fn default() -> (r: Fq)
        ensures
            r@ == 0,
    {
        Fq::zero()
    }
}

/// The field product.
impl std::ops::Mul<Fq> for Fq {
    type Output = Fq;

    /// The field product `self * rhs`.
    fn mul(self, rhs: Fq) -> (r: Fq)
        ensures
            r@ == (self@ * rhs@) % q(),
    {
        proof {
            use_type_invariant(&self);
            use_type_invariant(&rhs);
        }
        let bytes = decaf377_mul(&self.bytes, &rhs.bytes);
        let r = Fq { bytes };
        proof {
            let x = choose|x: Fq| x@ == (self@ * rhs@) % q();
            Fq::lemma_view_injective(r, x);
        }
        r
    }
}

impl vstd::std_specs::ops::MulSpecImpl<Fq> for Fq {
    open spec fn obeys_mul_spec() -> bool {
        true
    }

    open spec fn mul_req(self, rhs: Fq) -> bool {
        true
    }

    /// The element whose value is the product of the values modulo `q()`.
    open spec fn mul_spec(self, rhs: Fq) -> Fq {
        choose|x: Fq| x@ == (self@ * rhs@) % q()
    }
}

} // verus!
