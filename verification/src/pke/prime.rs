//! The field prime is a prime number.
//!
//! One more than the prime is a multiple of two to the power of 96. An element of that order
//! among the Gaussian integers of norm one forces every prime divisor to be one more or one
//! less than a multiple of it, and no product of two such numbers is the prime.
use crate::big_endian::lemma_be_value_injective;
use crate::pke::curve::{operand_value, p256_prime, P256AffinePoint};
use crate::pke::frobenius::{
    is_prime, lemma_euclid, lemma_fermat, lemma_frobenius, lemma_prime_divisor,
};
use crate::pke::gaussian::{
    congruent, g_conj, g_mul, g_one, g_pow, lemma_coarser, lemma_combine, lemma_congruent_chain,
    lemma_congruent_coarser, lemma_congruent_mul, lemma_congruent_pow, lemma_congruent_same,
    lemma_congruent_swap, lemma_mul_associates, lemma_mul_commutes,
    lemma_pow_multiplies, lemma_pow_one, lemma_pow_square, Gauss,
};
use vstd::arithmetic::div_mod::{
    lemma_fundamental_div_mod, lemma_fundamental_div_mod_converse, lemma_mod_multiples_basic,
    lemma_small_mod,
};
use vstd::arithmetic::power::pow;
use vstd::arithmetic::power2::{lemma_pow2_unfold, pow2};
use vstd::prelude::*;

verus! {

/// Minus one.
spec fn g_minus_one() -> Gauss {
    Gauss { re: -1, im: 0 }
}

/// Powers of minus one alternate.
proof fn lemma_minus_one_pow(n: nat)
    ensures
        g_pow(g_minus_one(), n) == if n % 2 == 0 {
            g_one()
        } else {
            g_minus_one()
        },
    decreases n,
{
    if n > 0 {
        lemma_minus_one_pow((n - 1) as nat);
    }
}

/// Where an element reaches minus one at a power of two, an exponent that leads to one is a
/// multiple of the next power of two.
proof fn lemma_order(g: Gauss, n: nat, s: nat, r: int)
    requires
        r > 2,
        congruent(g_pow(g, pow2(n)), g_minus_one(), r),
        congruent(g_pow(g, s), g_one(), r),
    ensures
        s % pow2(n + 1) == 0,
    decreases n,
{
    vstd::arithmetic::power2::lemma2_to64();
    let w = pow2(n);
    vstd::arithmetic::power2::lemma_pow2_pos(n);
    lemma_pow2_unfold(n + 1);
    if n > 0 {
        let h = g_mul(g, g);
        let half = pow2((n - 1) as nat);
        lemma_pow2_unfold(n);
        lemma_pow_square(g, half);
        lemma_pow_square(g, s);
        lemma_congruent_mul(g_pow(g, s), g_one(), g_pow(g, s), g_one(), r);
        assert(g_mul(g_one(), g_one()) == g_one());
        lemma_order(h, (n - 1) as nat, s, r);
    } else {
        assert(s % 1 == 0);
    }
    assert(s % w == 0);
    let q = s / w;
    lemma_fundamental_div_mod(s as int, w as int);
    lemma_pow_multiplies(g, w, q);
    assert(w * q == s);
    lemma_congruent_pow(g_pow(g, w), g_minus_one(), q, r);
    lemma_minus_one_pow(q);
    if q % 2 == 1 {
        lemma_congruent_swap(g_pow(g, s), g_one(), r);
        lemma_congruent_chain(g_one(), g_pow(g, s), g_minus_one(), r);
        lemma_small_mod(2, r as nat);
        assert(false);
    }
    let e = q / 2;
    assert(s == (2 * w) * e) by (nonlinear_arith)
        requires
            s == w * q,
            q == 2 * e,
    ;
    lemma_mod_multiples_basic(e as int, 2 * w as int);
    assert((2 * w) * e == e * (2 * w)) by (nonlinear_arith);
}

/// Norm one modulo `m`.
spec fn norm_one(g: Gauss, m: int) -> bool {
    (g.re * g.re + g.im * g.im - 1) % m == 0
}

/// Squaring an element of norm one doubles the square of its first part and subtracts one.
proof fn lemma_double(g: Gauss, x: int, m: int)
    requires
        m > 0,
        norm_one(g, m),
        (g.re - x) % m == 0,
    ensures
        norm_one(g_mul(g, g), m),
        (g_mul(g, g).re - (2 * x * x - 1)) % m == 0,
{
    let (a, b) = (g.re, g.im);
    let norm = a * a + b * b;
    lemma_combine(m, norm - 1, norm + 1, 0, 0);
    let h = g_mul(g, g);
    assert(h.re * h.re + h.im * h.im == norm * norm) by (nonlinear_arith)
        requires
            h.re == a * a - b * b,
            h.im == a * b + b * a,
            norm == a * a + b * b,
    ;
    assert((norm - 1) * (norm + 1) + 0 * 0 == norm * norm - 1) by (nonlinear_arith);
    lemma_combine(m, norm - 1, -1, a - x, 2 * (a + x));
    assert(h.re - (2 * x * x - 1) == (norm - 1) * (-1) + (a - x) * (2 * (a + x))) by (
    nonlinear_arith)
        requires
            h.re == a * a - b * b,
            norm == a * a + b * b,
    ;
}

/// An element of norm one and of order two to the power of 96 modulo the prime.
pub open spec fn generator() -> Gauss {
    Gauss {
        re: 0x6a5b3884934dce0600e8152a28240566a2f2b0c3c2804cefd3b182d47deb8698int,
        im: 0x75c399ab681727ca2af292a969309f17405257619768a252dcfbc518f81be13cint,
    }
}

/// The power of the generator with exponent two to the power of `k` has norm one and the
/// given first part.
spec fn reaches(k: nat, x: int) -> bool {
    &&& norm_one(g_pow(generator(), pow2(k)), p256_prime())
    &&& (g_pow(generator(), pow2(k)).re - x) % p256_prime() == 0
}

/// One doubling; `q` is how often the prime goes into it.
proof fn lemma_step(k: nat, x: int, q: int, y: int)
    requires
        reaches(k, x),
        2 * (x * x) == q * p256_prime() + y + 1,
    ensures
        reaches(k + 1, y),
{
    let p = p256_prime();
    let g = g_pow(generator(), pow2(k));
    lemma_double(g, x, p);
    lemma_pow2_unfold(k + 1);
    lemma_pow_square(generator(), pow2(k));
    let h = g_mul(g, g);
    assert(g_pow(generator(), pow2(k + 1)) == h);
    assert(2 * x * x == 2 * (x * x)) by (nonlinear_arith);
    lemma_mod_multiples_basic(q, p);
    lemma_combine(p, h.re - (2 * x * x - 1), 1, q * p, 1);
    assert(h.re - y == (h.re - (2 * x * x - 1)) * 1 + (q * p) * 1);
}

proof fn lemma_steps_0_to_16()
    requires
        reaches(0, 0x6a5b3884934dce0600e8152a28240566a2f2b0c3c2804cefd3b182d47deb8698int),
    ensures
        reaches(16, 0xd7428ec400ac93ae5e29283d7eb35f3d015a41cb384f815ebd8a9bd2a368d40eint),
{
    lemma_step(
        0,
        0x6a5b3884934dce0600e8152a28240566a2f2b0c3c2804cefd3b182d47deb8698int,
        0x585f569e61ce30ad79bb98c8e8742960ce5d82663c14abef9b825762f21f8642int,
        0x435af0b30f8e2b594b796ac5dac7819161c8f2dcfffd8b34f954a32495c67ac1int,
    );
    lemma_step(
        1,
        0x435af0b30f8e2b594b796ac5dac7819161c8f2dcfffd8b34f954a32495c67ac1int,
        0x23717497d8289eb8cb60717dccf7142f6fa06849583f87b858301a74d6492518int,
        0xd0fead7dc8cd17ced420016a49621d6f110d6e0da1be728ac909fc92651a3019int,
    );
    lemma_step(
        2,
        0xd0fead7dc8cd17ced420016a49621d6f110d6e0da1be728ac909fc92651a3019int,
        0x1553dae939833a84ec127a5bba56d49cf8c85257edd03cb90c30242ff0a78475bint,
        0x24c8302c3bd79821a98c789a08e5f161133e5fb96ddd95bc1b81c54a1ab30c3cint,
    );
    lemma_step(
        3,
        0x24c8302c3bd79821a98c789a08e5f161133e5fb96ddd95bc1b81c54a1ab30c3cint,
        0x0a91d42f889757a8c8e25ff77fe1add54568b3f744ab687d6801706d0ba2fb06int,
        0x204c36c7a94dc873fccefe5d6f410bdf43689c211702a7e16731fd39a49e5725int,
    );
    lemma_step(
        4,
        0x204c36c7a94dc873fccefe5d6f410bdf43689c211702a7e16731fd39a49e5725int,
        0x082648c50157e7a7f0420e6b1cc62a2f8bf4c29bd7b804dfe66cdf76c4ea2d40int,
        0x9333f72d677f51f45a5c86e2b3f489ec25e2eff65ef5c5258bfb4398f39683f1int,
    );
    lemma_step(
        5,
        0x9333f72d677f51f45a5c86e2b3f489ec25e2eff65ef5c5258bfb4398f39683f1int,
        0xa94970d5c881a61226fccfdf48e350e61c1481244f8b645a30bae98d01cf5822int,
        0x99ac2192a29bb36c3a26a5bb20938c6d16455f98efde8e50f90ebfe1d2a869e3int,
    );
    lemma_step(
        6,
        0x99ac2192a29bb36c3a26a5bb20938c6d16455f98efde8e50f90ebfe1d2a869e3int,
        0xb87e67bd881de6f1c7c823b50ee0cbf1395571193f7e0d1e9c8d250ebd9b97a0int,
        0x928ff5b419aec85bfb43f554e7175807d066361eecfce0c380fc5421e1139631int,
    );
    lemma_step(
        7,
        0x928ff5b419aec85bfb43f554e7175807d066361eecfce0c380fc5421e1139631int,
        0xa7d10a6c587595be8b17d454c3a83ae5c5b4ed22caf577cf80f6c96fa25b01acint,
        0x290afe66bd291240e5acd39cabd369c9a5f9a61070187efe30e769b72d21ec6dint,
    );
    lemma_step(
        8,
        0x290afe66bd291240e5acd39cabd369c9a5f9a61070187efe30e769b72d21ec6dint,
        0x0d290beb9804fb39899487e8add4c63fdf1e633025a744e4e91413ef1435e9efint,
        0x7193ecd6bfb15b0a3875b3c8d2845ddee199f877c0f0116ec74cd2d5551c36c0int,
    );
    lemma_step(
        9,
        0x7193ecd6bfb15b0a3875b3c8d2845ddee199f877c0f0116ec74cd2d5551c36c0int,
        0x64c7d91f42b694621cea96d9b932e32d95e06050fa5da904f2bcc6a2a6223e86int,
        0x4cb2cef511939ab92d34a507ec9e0257310bd3c91ea4f19504e07c91b18d5e85int,
    );
    lemma_step(
        10,
        0x4cb2cef511939ab92d34a507ec9e0257310bd3c91ea4f19504e07c91b18d5e85int,
        0x2df54f8c1b0c1f968b454420a45494271c8409912e337e114fd6e7aae0d3974aint,
        0xfcc4e8d75e4964d1aae96597f4c22e60329f3bd30251923f930c528937a3797bint,
    );
    lemma_step(
        11,
        0xfcc4e8d75e4964d1aae96597f4c22e60329f3bd30251923f930c528937a3797bint,
        0x1f32883bcb18861a222ecfac4606d9611f5d254e1ac052585182485c0a2571e23int,
        0xe2390d2c2ecd0da44e995cbf8ee3e2bda0c137b6d07b9ea908f9763a2ee62054int,
    );
    lemma_step(
        12,
        0xe2390d2c2ecd0da44e995cbf8ee3e2bda0c137b6d07b9ea908f9763a2ee62054int,
        0x18fd18ff351ca5f8002b7cae0b8a2448451940b13748f03bd514dbb4c86a31c0aint,
        0xe3b45c3f6724d5f2507af282856dc2e449f003a23aea5dd87574ec651cad5329int,
    );
    lemma_step(
        13,
        0xe3b45c3f6724d5f2507af282856dc2e449f003a23aea5dd87574ec651cad5329int,
        0x19512b5562bb6b7729486b13116384801a4f613f87e8303a4412152513fc6f444int,
        0xecbb17d7adf69246220ce7ab62113c526b2666755e8141d05a0c7e1a30a22d65int,
    );
    lemma_step(
        14,
        0xecbb17d7adf69246220ce7ab62113c526b2666755e8141d05a0c7e1a30a22d65int,
        0x1b5d2f964b5f16f28f3ec7ff89fbeec87f2d81ecce4f40b56447da525a58df544int,
        0x557e1de530388a66abf2c0136b29335bba5458cc773eeaefed295db45d4f48f5int,
    );
    lemma_step(
        15,
        0x557e1de530388a66abf2c0136b29335bba5458cc773eeaefed295db45d4f48f5int,
        0x3919fbf77f57775057eea66cb9372c0e6d6dc46d7274cfbed38fffa267675f1dint,
        0xd7428ec400ac93ae5e29283d7eb35f3d015a41cb384f815ebd8a9bd2a368d40eint,
    );
}

proof fn lemma_steps_16_to_32()
    requires
        reaches(16, 0xd7428ec400ac93ae5e29283d7eb35f3d015a41cb384f815ebd8a9bd2a368d40eint),
    ensures
        reaches(32, 0xe190ade497c43ebb8b4804ce54ba8d9341fdae31807f5b6f80ef72138472fe8bint),
{
    lemma_step(
        16,
        0xd7428ec400ac93ae5e29283d7eb35f3d015a41cb384f815ebd8a9bd2a368d40eint,
        0x16a01ba37b5a239ed53f3eceef1b319c9b8b27562dea10853c0e549ee56d1011fint,
        0x03b301a9f2af4abee98764e4b0dccd9e1ac3109ff3c01f89393c51cbf4df62a6int,
    );
    lemma_step(
        17,
        0x03b301a9f2af4abee98764e4b0dccd9e1ac3109ff3c01f89393c51cbf4df62a6int,
        0x001b5e6a9ed3e19fffcc211580af9fca995ede2cf34ce0cda5f8957668e75b32int,
        0x2b6da14c150fda04b0bd7f0c88c71f2205d6989418d660553b74c1f14f566279int,
    );
    lemma_step(
        18,
        0x2b6da14c150fda04b0bd7f0c88c71f2205d6989418d660553b74c1f14f566279int,
        0x0ebc0644adb81df3fc765376c70eecd15fb385ee1920a7b0b384c2a99c32f031int,
        0xe33f3a580378abea122555f9e0d962824ff6f41dd087d9ec2e415227968caa92int,
    );
    lemma_step(
        19,
        0xe33f3a580378abea122555f9e0d962824ff6f41dd087d9ec2e415227968caa92int,
        0x19372622d48fdce614a225203ec8268ef0250952d43ae5b1f0376bfa2a5474deaint,
        0x0bf1c935ff97291a45577818cf58866ac9322d4fc1d72417d9140af6d7f3c471int,
    );
    lemma_step(
        20,
        0x0bf1c935ff97291a45577818cf58866ac9322d4fc1d72417d9140af6d7f3c471int,
        0x011d574e34ad7513e309c99a0480ab6af056f77575d959f200916e97b4f887bcint,
        0x50ffba95653be0e11574642cbac9b2db80a9b50141d9f2901be4e1185b7efb7dint,
    );
    lemma_step(
        21,
        0x50ffba95653be0e11574642cbac9b2db80a9b50141d9f2901be4e1185b7efb7dint,
        0x3341a8256d06b8669a6e567e7fa7fc93b56c9762fc3cfc6b293219b119a77bdcint,
        0xb3f227d4341b8b97cc4384b2251aa86d6ec8787261eeaa70cfaae81fe1dc31edint,
    );
    lemma_step(
        22,
        0xb3f227d4341b8b97cc4384b2251aa86d6ec8787261eeaa70cfaae81fe1dc31edint,
        0xfcf91185257fd3a60755473779f9d81c1bfd695ed41de3ef4ad39deb2cd300d7int,
        0x593d55dd7ee64e4607bc6ea466363e71b717efea2f9287bd9e88870812fc2ba8int,
    );
    lemma_step(
        23,
        0x593d55dd7ee64e4607bc6ea466363e71b717efea2f9287bd9e88870812fc2ba8int,
        0x3e3768cc53664cfaa3baa238b78dddf81e84dfcb15b5c42e9b19d7c00ad58cb4int,
        0x00b250489f48a0c36377ab73134c94a425d03b897836fc806e8689d33f394933int,
    );
    lemma_step(
        24,
        0x00b250489f48a0c36377ab73134c94a425d03b897836fc806e8689d33f394933int,
        0x0000f8677c56eab55ca247e346209b4011ed7dd62fd46c38c63bf245885f3381int,
        0xdb9ef4e727a60589e7ee8365886242a59d65fad2d10607f2e1ccf01b17a773d2int,
    );
    lemma_step(
        25,
        0xdb9ef4e727a60589e7ee8365886242a59d65fad2d10607f2e1ccf01b17a773d2int,
        0x178d2b36ee3bb98d919a36892e45a5e355a77e7b38b1687cbf21a518e8cf003baint,
        0x57f6b215e5f87aae25ec229cf2c1c89d3a1bec3c4889293b58d1b6d6a5b4b441int,
    );
    lemma_step(
        26,
        0x57f6b215e5f87aae25ec229cf2c1c89d3a1bec3c4889293b58d1b6d6a5b4b441int,
        0x3c73358b7d01dac1b166fbd8c382496b82fb4d10fa6dca8fdf0b92ac2435abfbint,
        0xf78d4e8c6782ce3d41d94952c6dacd175a4812a8b99b039eaea803d7acdc9cfcint,
    );
    lemma_step(
        27,
        0xf78d4e8c6782ce3d41d94952c6dacd175a4812a8b99b039eaea803d7acdc9cfcint,
        0x1dec3f726fbc88f72134f19d3c4bb1803c30aa6e28e08524b46a21899884c018fint,
        0x1e0a47603c132ae634c09d066bb6ec9dc0cf3671bc92c5d6720fa94b2b1431aeint,
    );
    lemma_step(
        28,
        0x1e0a47603c132ae634c09d066bb6ec9dc0cf3671bc92c5d6720fa94b2b1431aeint,
        0x070cd248720c3c62843ba8b908f995fea488bd04d18f53cfbeb2dc9ccfcff3f3int,
        0xff2e655856a7690a709287cfbab62b0a9e3643b4ed33c4bf30d421155178187aint,
    );
    lemma_step(
        29,
        0xff2e655856a7690a709287cfbab62b0a9e3643b4ed33c4bf30d421155178187aint,
        0x1fcbaec9f1db9e12dcba66b1c73ace70802177256d2671e94441232e123dad516int,
        0x624466cea01679f2616430ddafb42ce250435034a542bc67b41392917549095dint,
    );
    lemma_step(
        30,
        0x624466cea01679f2616430ddafb42ce250435034a542bc67b41392917549095dint,
        0x4b70e1fa3eb001468cd308c52a1234f288e193f330cb2daf8fece0b81078c691int,
        0x8ee76e6acaecf4666d02f71b629270a39094223e2ea0243aa9d5ee36c33c1e22int,
    );
    lemma_step(
        31,
        0x8ee76e6acaecf4666d02f71b629270a39094223e2ea0243aa9d5ee36c33c1e22int,
        0x9f8b1f6e7a7d32d3dcbc8d6a05d68c45a02728c9d6f0ab83fb364d57a57b0584int,
        0xe190ade497c43ebb8b4804ce54ba8d9341fdae31807f5b6f80ef72138472fe8bint,
    );
}

proof fn lemma_steps_32_to_48()
    requires
        reaches(32, 0xe190ade497c43ebb8b4804ce54ba8d9341fdae31807f5b6f80ef72138472fe8bint),
    ensures
        reaches(48, 0xb80b427c4a792ceea17bb886ff448c2a46c6af49f7556a13fce0b3eeb5febba8int),
{
    lemma_step(
        32,
        0xe190ade497c43ebb8b4804ce54ba8d9341fdae31807f5b6f80ef72138472fe8bint,
        0x18d7f46e161a02f7428681d04902c80bba0d34323221e588e6bd8e5f20403a49fint,
        0x307af8caf30779be7367e4b51acef1f7115f7877e6c4d70dab85a38415cbe390int,
    );
    lemma_step(
        33,
        0x307af8caf30779be7367e4b51acef1f7115f7877e6c4d70dab85a38415cbe390int,
        0x125cb0bc6f1541d11b1b1da632521496407bd760d2b078fe66a89eeaae9fc045int,
        0xa8159226b74bd772141cd4d71779a58c8e893d8b232f71c84db6e35b4ff12244int,
    );
    lemma_step(
        34,
        0xa8159226b74bd772141cd4d71779a58c8e893d8b232f71c84db6e35b4ff12244int,
        0xdcb8a34919743b9141f5130a69308ed5061b85e8fc8d131434b27c55f0ca11d8int,
        0x29ececd90892717fa8ad1b4fda5d47459e2a08ece437cb369865d194f20655f7int,
    );
    lemma_step(
        35,
        0x29ececd90892717fa8ad1b4fda5d47459e2a08ece437cb369865d194f20655f7int,
        0x0dbb7e462dcaaa99827e98b8b7a64b2a7dc089f46ff544c96f1863337ec3a341int,
        0x2fa58b7c18a85749a78284c9d7077af16d86bd4d63435309e1e5bfc1bfa78be2int,
    );
    lemma_step(
        36,
        0x2fa58b7c18a85749a78284c9d7077af16d86bd4d63435309e1e5bfc1bfa78be2int,
        0x11bc688967c79881df6ffaa00ae6d844e6e6ed8826302b859f8b4cb2a259fa42int,
        0x400714ae368f0f10bf5c1e882e114d97275e0548d21117d1c5e27b00b4f06149int,
    );
    lemma_step(
        37,
        0x400714ae368f0f10bf5c1e882e114d97275e0548d21117d1c5e27b00b4f06149int,
        0x200715129cfb79f2030cf769c3aca037b73a6e0270d04a7ec8885ce416bf352cint,
        0xd067ab0a5f113240d2b174ab77e2b97f2159d0b611ce70ee010e7dee827002cdint,
    );
    lemma_step(
        38,
        0xd067ab0a5f113240d2b174ab77e2b97f2159d0b611ce70ee010e7dee827002cdint,
        0x153513fd93187d9b07edb00970c0f7782f828f44a1c3515c0a5f2e2b020d7653eint,
        0x7322fabfe8fa34a5d396e9f363cc9f8164a94e206b9a1bd4d1b998bd6fa7158fint,
    );
    lemma_step(
        39,
        0x7322fabfe8fa34a5d396e9f363cc9f8164a94e206b9a1bd4d1b998bd6fa7158fint,
        0x6790e4205f5d057238817f374e73459f1ebdaf6d044d1e283bfb089627622321int,
        0x9fa5e0d5a0efffa21d7127fe530a373b6423a066296c3ec2775af6607027aee2int,
    );
    lemma_step(
        40,
        0x9fa5e0d5a0efffa21d7127fe530a373b6423a066296c3ec2775af6607027aee2int,
        0xc71ef18ab4a33332246d386853e24b02d28f4e188f0ad7deee497fa9a90d828dint,
        0x753d5f567af734efb03e7288f8128f23c5d7d67580825daa3a1a0102a9b58194int,
    );
    lemma_step(
        41,
        0x753d5f567af734efb03e7288f8128f23c5d7d67580825daa3a1a0102a9b58194int,
        0x6b624fb7a99e091085c5e4493d0b2e3e6ae5847453f1eed5e6bdb076a194a627int,
        0xf8c9c9ac38f9713e1fcd69cf617ae14f69568095e5e0a9d5af9258a26b51a146int,
    );
    lemma_step(
        42,
        0xf8c9c9ac38f9713e1fcd69cf617ae14f69568095e5e0a9d5af9258a26b51a146int,
        0x1e38f2b99def87c78fd24c80af5498c1fd96fef65a76366ce497c39f476f2e923int,
        0x7800e37c51513ee11dd8c22c8ebd9d55238ae19cdb4524a1d78760d466bd276aint,
    );
    lemma_step(
        43,
        0x7800e37c51513ee11dd8c22c8ebd9d55238ae19cdb4524a1d78760d466bd276aint,
        0x7081aa8b1d45699ab0d37c506173973d82d76a0d52b46d14e35b85f0262b0f05int,
        0xccb1fc6a6d3a656781b3fc0d1e179d94b35b84ca756b55b47f1ba3678755feccint,
    );
    lemma_step(
        44,
        0xccb1fc6a6d3a656781b3fc0d1e179d94b35b84ca756b55b47f1ba3678755feccint,
        0x147584c128b9beb5ed92919f733568b2f06b74d99a5428d015c94c166ecfc8b7eint,
        0xc9c4108ea59659113401bb00857b6a9a9e3520b29b6bd9110d1200f39f1f709dint,
    );
    lemma_step(
        45,
        0xc9c4108ea59659113401bb00857b6a9a9e3520b29b6bd9110d1200f39f1f709dint,
        0x13e0af053f51684db55208286dfd1b5c4908e950fcccece92da83e20aa217419bint,
        0xa8c3f80c46271c33df306ff4e69bf5af3241285fee51ffad5bdb99a59d36c22cint,
    );
    lemma_step(
        46,
        0xa8c3f80c46271c33df306ff4e69bf5af3241285fee51ffad5bdb99a59d36c22cint,
        0xde839728bcbf915ed138450f8cda79f76cd5a13ac2a3859737e5e3c9827568aaint,
        0x837429e6a5dcfdce50eadd77854c87fcf3a9768d3eae4a1d30ec18fa6e22d7c9int,
    );
    lemma_step(
        47,
        0x837429e6a5dcfdce50eadd77854c87fcf3a9768d3eae4a1d30ec18fa6e22d7c9int,
        0x87002f30a244891cea8d4619ecc603b7dab81dad70a32569dfe67e692f704407int,
        0xb80b427c4a792ceea17bb886ff448c2a46c6af49f7556a13fce0b3eeb5febba8int,
    );
}

proof fn lemma_steps_48_to_64()
    requires
        reaches(48, 0xb80b427c4a792ceea17bb886ff448c2a46c6af49f7556a13fce0b3eeb5febba8int),
    ensures
        reaches(64, 0x1d60a0e1616f44d7464f7bf5a6efc1b6d0caf5826c090aa4189cb4d34226de7eint),
{
    lemma_step(
        48,
        0xb80b427c4a792ceea17bb886ff448c2a46c6af49f7556a13fce0b3eeb5febba8int,
        0x108a06023eea233a21bbafad165d89de98746c90f76fb51d6fa7927ceca64a8f4int,
        0xd31940c403921050b023c678d3d1ea6a9c0b7587ad90a85f89614637c0426573int,
    );
    lemma_step(
        49,
        0xd31940c403921050b023c678d3d1ea6a9c0b7587ad90a85f89614637c0426573int,
        0x15c254683054169170d1309941fccf2ff3a66ed8d58249579c43ef6666696cb72int,
        0xa8258b7de835a88cef838977838e83700a6583fa0e53a48aab5740045596aec3int,
    );
    lemma_step(
        50,
        0xa8258b7de835a88cef838977838e83700a6583fa0e53a48aab5740045596aec3int,
        0xdce2992e9b3da2d2dcb0af7c463efe600610933380cdaa0a43652ebc56cd56ddint,
        0x899a68f1427a0d2fd491bd9341d18e8e9b317ee33505780519e1ec69da70a7eeint,
    );
    lemma_step(
        51,
        0x899a68f1427a0d2fd491bd9341d18e8e9b317ee33505780519e1ec69da70a7eeint,
        0x93ed42e9e0cc4f96368c38af79975258424d2776d4bc3a40b02f402983d216f0int,
        0x985fa0aea736bcde0948f54584626ade12365d81891e3b8949c081caf0a2d977int,
    );
    lemma_step(
        52,
        0x985fa0aea736bcde0948f54584626ade12365d81891e3b8949c081caf0a2d977int,
        0xb5636510cf7b2b3819285413ed0ffab6b5dd72af6feec41bf76e1a5aef66122cint,
        0x5408d170ded8ca5897dcde0fb25e71bf2b97a80ab7b1f2399d23d4a11613fccdint,
    );
    lemma_step(
        53,
        0x5408d170ded8ca5897dcde0fb25e71bf2b97a80ab7b1f2399d23d4a11613fccdint,
        0x372b937fe076f370afd51707acc6cafb373a9f462d353c70e6e8de6dfc918c6dint,
        0x2c59042e736d3c304a08e3b45aa6ebae2e855398915509f5ce82c42774b604beint,
    );
    lemma_step(
        54,
        0x2c59042e736d3c304a08e3b45aa6ebae2e855398915509f5ce82c42774b604beint,
        0x0f5d70c7cf740622d88092f8d65fb634fbcc3e246e03278ec4d0c047e43be8daint,
        0x95136227d3371e99e05dfbcb6498dc62e70745723037d97aee9c6f7dc0b8e2e1int,
    );
    lemma_step(
        55,
        0x95136227d3371e99e05dfbcb6498dc62e70745723037d97aee9c6f7dc0b8e2e1int,
        0xad9f2374d47332dff3d78f7bac12821db0831e21061cda0353cf18301f232741int,
        0xb2ab36c0ff51d7f5924aff03b3f87e823d905ba9c97e1f1545042754f8273ac2int,
    );
    lemma_step(
        56,
        0xb2ab36c0ff51d7f5924aff03b3f87e823d905ba9c97e1f1545042754f8273ac2int,
        0xf965154e2296df0a2d3ca0510f4aad9cd63b3f9e7f4d81eaa9e597c76b345a51int,
        0x21e534d0e80aaa2c636f7c03a148060caeee31f8ff828efefa68fe1d14655058int,
    );
    lemma_step(
        57,
        0x21e534d0e80aaa2c636f7c03a148060caeee31f8ff828efefa68fe1d14655058int,
        0x08f9c9aad1e8a10f049be90fef9122291e0bf386b08e2009c71898a0cf0fae42int,
        0xc8821d0bc7ae8b97eb10f0990664cacba70f9398bf1093516e1e39cd4c5deac1int,
    );
    lemma_step(
        58,
        0xc8821d0bc7ae8b97eb10f0990664cacba70f9398bf1093516e1e39cd4c5deac1int,
        0x13a171f09109d855ec2734d4d2cc0d89a8d5fb41770cbe0afd6b73532830236e0int,
        0xef480e7b60cd684fa65ce50198ea29ee0ed6616288b3a1c008a6d714820101e1int,
    );
    lemma_step(
        59,
        0xef480e7b60cd684fa65ce50198ea29ee0ed6616288b3a1c008a6d714820101e1int,
        0x1bf4f3ea6c93eab5d1798c7f9e17eea1d25d7988e0e4d58725cc805af4f2f9934int,
        0xce285209d3da16b61fa616a1e6aa4ee8bb2c2b9bd2313a4fe30a83d25ebaa8b5int,
    );
    lemma_step(
        60,
        0xce285209d3da16b61fa616a1e6aa4ee8bb2c2b9bd2313a4fe30a83d25ebaa8b5int,
        0x14c09d4c468a8ce5c1ab85ade06c9819cf8e815b11309296b75b4b958a6f61cd5int,
        0xab71110c8f36054ac095cd9b2844fb008ed9d5a485884008f9e3ff3dab5a3cc6int,
    );
    lemma_step(
        61,
        0xab71110c8f36054ac095cd9b2844fb008ed9d5a485884008f9e3ff3dab5a3cc6int,
        0xe5a07d6e90b706389166766efa87d4f09f52e1b69b5810f250b2f158bf477609int,
        0x4805f2d89d3067c59c50f30b23f7ba24579dfb531a8456a5f885200f5a924850int,
    );
    lemma_step(
        62,
        0x4805f2d89d3067c59c50f30b23f7ba24579dfb531a8456a5f885200f5a924850int,
        0x2886b17a9f05eef32e94c818a8e7c916cf77783f1d40370b722bd2b6bdac2baeint,
        0x23074ebb9133523adbcd26da69067c6538a0bf60fb74e4a056f322545d065dadint,
    );
    lemma_step(
        63,
        0x23074ebb9133523adbcd26da69067c6538a0bf60fb74e4a056f322545d065dadint,
        0x0995ff7969ef9de001e034d3a1c2ce0cad9e417e2a4fbf1236069952d16090adint,
        0x1d60a0e1616f44d7464f7bf5a6efc1b6d0caf5826c090aa4189cb4d34226de7eint,
    );
}

proof fn lemma_steps_64_to_80()
    requires
        reaches(64, 0x1d60a0e1616f44d7464f7bf5a6efc1b6d0caf5826c090aa4189cb4d34226de7eint),
    ensures
        reaches(80, 0xf1df6e493603390b2eb934ee4cb0a07d0d7a1aa04ff8116611e7a16a001bfa96int),
{
    lemma_step(
        64,
        0x1d60a0e1616f44d7464f7bf5a6efc1b6d0caf5826c090aa4189cb4d34226de7eint,
        0x06be11d8432ba4600ca64796bfe42a147faa93d7478ea7198ae0aabef178edb0int,
        0x0a760ebf502b7dfc40a8b1bfd6d5af2df672b65bc2d7d2e0aa18b3667f0679b7int,
    );
    lemma_step(
        65,
        0x0a760ebf502b7dfc40a8b1bfd6d5af2df672b65bc2d7d2e0aa18b3667f0679b7int,
        0x00dadf3117d0728bc1b8bd60add126a268e129eaafca388cc90df8883dbf24f8int,
        0x143aa4e5e254b824a12afac2510be05c0af3b0b0a3e28421927aa20b3ea42699int,
    );
    lemma_step(
        66,
        0x143aa4e5e254b824a12afac2510be05c0af3b0b0a3e28421927aa20b3ea42699int,
        0x03326e661eb0b58eee41e6dbab7630e392bb36e965efc1024518cf761553ad0aint,
        0x7069e40143d8c1841033198ff31342839834aabb93f19069455291a941073bebint,
    );
    lemma_step(
        67,
        0x7069e40143d8c1841033198ff31342839834aabb93f19069455291a941073bebint,
        0x62b9a69c41acca97dcb6fdf843b0dfe8b751d2c27cf7e6f73d3869a79f2c3ebbint,
        0x649d77fc3dc7a9c1dd88db9213868ac40ad561d5994c69839a346776f4ec922cint,
    );
    lemma_step(
        68,
        0x649d77fc3dc7a9c1dd88db9213868ac40ad561d5994c69839a346776f4ec922cint,
        0x4f16cd3336df4830e1242e4ecd5989e69a943b2d9e4b859aa886a2a3bc7abee0int,
        0x0d1628b5d89c574fb579f45b41ed012d7efc2cd878390855705a964725a72dffint,
    );
    lemma_step(
        69,
        0x0d1628b5d89c574fb579f45b41ed012d7efc2cd878390855705a964725a72dffint,
        0x0156841afccb654eef012d3e02ed2f3bb5504505b02e9cf4a6fce65ea37648feint,
        0x388d0b5d70b0588de27eca76a51eec846572ca163573ff0339ed1634256190ffint,
    );
    lemma_step(
        70,
        0x388d0b5d70b0588de27eca76a51eec846572ca163573ff0339ed1634256190ffint,
        0x18fc055ce674eaf07eed751871326db76e0cf815ecfb6cdfd77643189e849322int,
        0xf53e911d68c1ba01d96f00e9ce73965cd762ba4ccfb9915bd7ca6c7a71404f23int,
    );
    lemma_step(
        71,
        0xf53e911d68c1ba01d96f00e9ce73965cd762ba4ccfb9915bd7ca6c7a71404f23int,
        0x1d5e1a21ba3e961edcb1fbfc7159c6f49ec4a6e4c97842fcd650c8f6ec2ba5401int,
        0xba27d6abc4615ebc81ae4cdfed769bd1c32214ee5a4492a18bda262fe2a79192int,
    );
    lemma_step(
        72,
        0xba27d6abc4615ebc81ae4cdfed769bd1c32214ee5a4492a18bda262fe2a79192int,
        0x10ebbd44a7a29ba18756968ec158f8bf703eded6586abd090b5fe9a5da6e9a3c8int,
        0xfc7e3376f704fbe9f5549a087c028c3ec186438c122f8f472a24c6ffb56f124fint,
    );
    lemma_step(
        73,
        0xfc7e3376f704fbe9f5549a087c028c3ec186438c122f8f472a24c6ffb56f124fint,
        0x1f2116713c59c943444c76d79841eda824acb657af2ae4624eff85a82663c29baint,
        0x0523a901126ec8d2d2e30f9f4611564eaa3ac183051b246c9cc6356f95de927bint,
    );
    lemma_step(
        74,
        0x0523a901126ec8d2d2e30f9f4611564eaa3ac183051b246c9cc6356f95de927bint,
        0x0034d3236160641883a002e2b05e9f70f002483eb5d063aeb40f85ca23481ab8int,
        0x35ef9849453ef022e8c17ac07f92e2d848d6d0699c85ba429f651f29419128e9int,
    );
    lemma_step(
        75,
        0x35ef9849453ef022e8c17ac07f92e2d848d6d0699c85ba429f651f29419128e9int,
        0x16ba2a982adf0ee45ad51aef07f6511c95cf119e7491628bead0cf261a9a150cint,
        0x51834e18957b0393382670b9f7f59889184d029e98f2de99c8e9f2957b915d2dint,
    );
    lemma_step(
        76,
        0x51834e18957b0393382670b9f7f59889184d029e98f2de99c8e9f2957b915d2dint,
        0x33e8b5895b1058c1749cd6c1b996c1f8c73f0d4351fdb40774dfb5a27b295c8cint,
        0x44483afc13f2019f0c51fe36128d99d436d0ce683cf695cf1abcce8e54f0d05dint,
    );
    lemma_step(
        77,
        0x44483afc13f2019f0c51fe36128d99d436d0ce683cf695cf1abcce8e54f0d05dint,
        0x246ce76e7062dbeaf975164823ebb228433c5344d3d8f7613615280db24ed552int,
        0x7b3755d88cf8045a39b5a70a70e95a06d108ea902b397fe2dc9ca4ee723d58e3int,
    );
    lemma_step(
        78,
        0x7b3755d88cf8045a39b5a70a70e95a06d108ea902b397fe2dc9ca4ee723d58e3int,
        0x769c70e8a53547ff19227b7854d736bd6dcabbd65076cd46d1277b4bd7e7a845int,
        0xd27fcef13024fec65728fe8c91404b09cb12cc08a6153ae238551b2f25fd5ad6int,
    );
    lemma_step(
        79,
        0xd27fcef13024fec65728fe8c91404b09cb12cc08a6153ae238551b2f25fd5ad6int,
        0x15a2bdea6b552e5782c34149a082b8101fdcb40a74f2344595a083644f1ada4cfint,
        0xf1df6e493603390b2eb934ee4cb0a07d0d7a1aa04ff8116611e7a16a001bfa96int,
    );
}

proof fn lemma_steps_80_to_94()
    requires
        reaches(80, 0xf1df6e493603390b2eb934ee4cb0a07d0d7a1aa04ff8116611e7a16a001bfa96int),
    ensures
        reaches(94, 0x0000000000000000000000000000000000000000000000000000000000000000int),
{
    lemma_step(
        80,
        0xf1df6e493603390b2eb934ee4cb0a07d0d7a1aa04ff8116611e7a16a001bfa96int,
        0x1c90ce1501e8f360c70ed8ea7ed130bef3bd65bc51ad7b64290684a06e7c321d6int,
        0x8c127ccd8a5363f33e4d9b0c4500671e833029ac716bc0ed6e88b094899dc19dint,
    );
    lemma_step(
        81,
        0x8c127ccd8a5363f33e4d9b0c4500671e833029ac716bc0ed6e88b094899dc19dint,
        0x994873adcb5d4bd4a10796d7a0e33346ce04ae80586013c3a0dac3b347db88cfint,
        0x3013b9d9d41d3b630ea9d891aa0bdb783e99b1989ba8c7f98baeb3a575dbbd60int,
    );
    lemma_step(
        82,
        0x3013b9d9d41d3b630ea9d891aa0bdb783e99b1989ba8c7f98baeb3a575dbbd60int,
        0x120ece6daba8cf7c984a4b8e4a531a25c8a20946078feccf475f7775c9c41af2int,
        0x2d59e5bb74c628d5661a481aa6bbb4e2e87a889c31467e8b811162646671e2f1int,
    );
    lemma_step(
        83,
        0x2d59e5bb74c628d5661a481aa6bbb4e2e87a889c31467e8b811162646671e2f1int,
        0x101174aaf32cfd4e5f4b3d87f77e6a7d6d87a409f2f5f16ac320da9a61ac883eint,
        0xf3675c6f31a25521ee833de837afc99688f80dfa317c1c239696622ebd8d55ffint,
    );
    lemma_step(
        84,
        0xf3675c6f31a25521ee833de837afc99688f80dfa317c1c239696622ebd8d55ffint,
        0x1cedac66f05033adc918a2376e76c79171fa315a916d7c3bc87a995404e600e0cint,
        0x60b6151511021592be0790312817af4fecfd82ac64f183517f49da8d09f2b60dint,
    );
    lemma_step(
        85,
        0x60b6151511021592be0790312817af4fecfd82ac64f183517f49da8d09f2b60dint,
        0x491222a3d9f68df94d41f165bbb72026716634c9d82bfe53c8af32c8cd31d603int,
        0xbab10e433b99ee303e9267a3f23c17771bb6bf4ab2b7022be31e7d400546cf54int,
    );
    lemma_step(
        86,
        0xbab10e433b99ee303e9267a3f23c17771bb6bf4ab2b7022be31e7d400546cf54int,
        0x1104b865de90a90a9f9061d4a5194840c879927c6e410945e0879b71c244f0ec7int,
        0xbaf7aeaa87236ebd0c7f95ee988ee56827e8dbea5d974bb0bbd0ca7ac800f5e6int,
    );
    lemma_step(
        87,
        0xbaf7aeaa87236ebd0c7f95ee988ee56827e8dbea5d974bb0bbd0ca7ac800f5e6int,
        0x11119b2e5b252bc114904f8d96efb3a416f2bb08a1f233e28ddef0b2dbd49b4cdint,
        0x529d4257656bc77ea146253c62a5626c2bef747cb451cd4d93e4ba0e55adca14int,
    );
    lemma_step(
        88,
        0x529d4257656bc77ea146253c62a5626c2bef747cb451cd4d93e4ba0e55adca14int,
        0x35523e35100b7e77d098f8139df8d002730d5e7f3532d736f84fe4cd187080b3int,
        0xfc9a83dc456adfc099c0afb1ced4e24b756c9498c5301928da37f5852587a3d2int,
    );
    lemma_step(
        89,
        0xfc9a83dc456adfc099c0afb1ced4e24b756c9498c5301928da37f5852587a3d2int,
        0x1f28121bb15b3550f6f0fd205ed7ceceaedc205bf8ef7466d5bd8a179a8165a81int,
        0x46fffb1c4e6177cc1ba585fc27f610ea1b5032a0a26e366cbc51f45370b88b08int,
    );
    lemma_step(
        90,
        0x46fffb1c4e6177cc1ba585fc27f610ea1b5032a0a26e366cbc51f45370b88b08int,
        0x2761fa938e85eb9cb3171d08ce03826c6123880586290a8c7a298840abebec9bint,
        0x2f57e6e55c102f773acc5e722e6e4bfe0371f29dcfb97e2814f053fef9ef4d1aint,
    );
    lemma_step(
        91,
        0x2f57e6e55c102f773acc5e722e6e4bfe0371f29dcfb97e2814f053fef9ef4d1aint,
        0x1182c9ee0169b09fdbde8212425fafb405be6b157d9e58010f3a8f4e921c6a8eint,
        0xfde2372a988447bda3a9b289ece9146a84894250ab8469c67e790dd9d5a5b7d5int,
    );
    lemma_step(
        92,
        0xfde2372a988447bda3a9b289ece9146a84894250ab8469c67e790dd9d5a5b7d5int,
        0x1f791d1e140adf9d4c3f1ad2af7af71c559eada496aacc1e3b0734b74b90262fdint,
        0xa83a20ffb991554529a065d255e16b985fe858b6963cd2340afc3c06962ad16eint,
    );
    lemma_step(
        93,
        0xa83a20ffb991554529a065d255e16b985fe858b6963cd2340afc3c06962ad16eint,
        0xdd18b1061478383f220b5fbed973899abfb2b926d958c02f4658d48369266979int,
        0x0000000000000000000000000000000000000000000000000000000000000000int,
    );
}

/// The generator reaches minus one after 95 squarings.
proof fn lemma_generator_order()
    ensures
        norm_one(generator(), p256_prime()),
        congruent(g_pow(generator(), pow2(95)), g_minus_one(), p256_prime()),
{
    let p = p256_prime();
    let g = generator();
    assert(g.re * g.re + g.im * g.im - 1 == 0x625c0b398b978b163172a8ab9921a5421173021f993973d827183f71a559ffb1int * p) by (nonlinear_arith)
        requires
            g.re == 0x6a5b3884934dce0600e8152a28240566a2f2b0c3c2804cefd3b182d47deb8698int,
            g.im == 0x75c399ab681727ca2af292a969309f17405257619768a252dcfbc518f81be13cint,
            p == 0xffffffff00000001000000000000000000000000ffffffffffffffffffffffffint,
    ;
    lemma_mod_multiples_basic(0x625c0b398b978b163172a8ab9921a5421173021f993973d827183f71a559ffb1int, p);
    vstd::arithmetic::power2::lemma2_to64();
    lemma_pow_one(g);
    lemma_mod_multiples_basic(0, p);
    assert(reaches(0, g.re));
    lemma_steps_0_to_16();
    lemma_steps_16_to_32();
    lemma_steps_32_to_48();
    lemma_steps_48_to_64();
    lemma_steps_64_to_80();
    lemma_steps_80_to_94();
    let h = g_pow(g, pow2(94));
    let (a, b) = (h.re, h.im);
    lemma_pow2_unfold(95);
    lemma_pow_square(g, pow2(94));
    let s = g_mul(h, h);
    assert(a % p == 0);
    let norm = a * a + b * b;
    lemma_combine(p, norm - 1, -1, a, 2 * a);
    assert(s.re + 1 == (norm - 1) * (-1) + a * (2 * a)) by (nonlinear_arith)
        requires
            s.re == a * a - b * b,
            norm == a * a + b * b,
    ;
    lemma_combine(p, a, 2 * b, 0, 0);
    assert(s.im == a * (2 * b) + 0 * 0) by (nonlinear_arith)
        requires
            s.im == a * b + b * a,
    ;
}

/// Two to the power of 96.
spec fn word_96() -> int {
    0x1000000000000000000000000
}

proof fn lemma_word_96()
    ensures
        pow2(96) == word_96(),
{
    vstd::arithmetic::power2::lemma2_to64();
    vstd::arithmetic::power2::lemma_pow2_adds(64, 32);
    assert(0x1_0000_0000_0000_0000int * 0x1_0000_0000int == 0x1000000000000000000000000int) by (
    nonlinear_arith);
}

/// A prime divisor is one more or one less than a multiple of two to the power of 96.
proof fn lemma_divisor_shape(r: int)
    requires
        is_prime(r),
        p256_prime() % r == 0,
    ensures
        (r - 1) % word_96() == 0 || (r + 1) % word_96() == 0,
{
    let p = p256_prime();
    let g = generator();
    if r % 2 == 0 {
        if r == 2 {
            assert(p % 2 == 1);
        } else {
            assert(r % 2 != 0);
        }
        assert(false);
    }
    lemma_generator_order();
    lemma_congruent_coarser(g_pow(g, pow2(95)), g_minus_one(), p, r);
    let norm = g.re * g.re + g.im * g.im;
    lemma_coarser(norm - 1, p, r);
    lemma_frobenius(g.re, g.im, r);
    let c = g_conj(g);
    let unit = g_mul(g, c);
    assert(congruent(unit, g_one(), r)) by {
        assert(unit.re == norm) by (nonlinear_arith)
            requires
                unit.re == g.re * g.re - g.im * (-g.im),
                norm == g.re * g.re + g.im * g.im,
        ;
        assert(unit.im == 0) by (nonlinear_arith)
            requires
                unit.im == g.re * (-g.im) + g.im * g.re,
        ;
        lemma_mod_multiples_basic(0, r);
    }
    let n = r as nat;
    lemma_word_96();
    if r % 4 == 1 {
        let m = (n - 1) as nat;
        let h = g_pow(g, m);
        assert(g_pow(g, n) == g_mul(g, h));
        lemma_mul_commutes(g, c);
        lemma_mul_associates(c, g, h);
        lemma_congruent_same(c, r);
        lemma_congruent_same(h, r);
        lemma_congruent_mul(c, c, g_pow(g, n), g, r);
        lemma_congruent_mul(unit, g_one(), h, h, r);
        lemma_one(h);
        lemma_congruent_swap(g_mul(unit, h), h, r);
        lemma_congruent_chain(h, g_mul(unit, h), unit, r);
        lemma_congruent_chain(h, unit, g_one(), r);
        lemma_order(g, 95, m, r);
    } else {
        let m = n + 1;
        lemma_congruent_same(g, r);
        lemma_congruent_mul(g, g, g_pow(g, n), c, r);
        assert(g_pow(g, m) == g_mul(g, g_pow(g, n)));
        lemma_congruent_chain(g_pow(g, m), unit, g_one(), r);
        lemma_order(g, 95, m, r);
    }
}

proof fn lemma_one(a: Gauss)
    ensures
        g_mul(g_one(), a) == a,
{
    assert(1 * a.re - 0 * a.im == a.re);
    assert(1 * a.im + 0 * a.re == a.im);
}

/// No product of one more than a multiple and one less than a multiple is the prime.
proof fn lemma_no_such_product(k: int, m: int)
    requires
        k >= 1,
        m >= 1,
    ensures
        (k * word_96() + 1) * (m * word_96() - 1) != p256_prime(),
{
    let w = word_96();
    let p = p256_prime();
    if (k * w + 1) * (m * w - 1) == p {
        let km = k * m;
        let c = 0xffffffff00000001int;
        assert((k * w + 1) * (m * w - 1) == (km * w + m - k) * w - 1) by (nonlinear_arith)
            requires
                km == k * m,
        ;
        let t = km * w + m - k;
        assert(t * w == p + 1);
        assert(t == c * w + 1);
        // Both sides agree modulo the word, so the difference of the factors is one.
        if km > c {
            assert(k - m + 1 == (km - c) * w) by (nonlinear_arith)
                requires
                    km * w + m - k == c * w + 1,
            ;
            assert((km - c) * w >= w) by (nonlinear_arith)
                requires
                    km - c >= 1,
                    w > 0,
            ;
            assert(km >= k) by (nonlinear_arith)
                requires
                    km == k * m,
                    k >= 1,
                    m >= 1,
            ;
            assert(km * w - k >= k * (w - 1)) by (nonlinear_arith)
                requires
                    km >= k,
                    w > 0,
            ;
            assert(k * (w - 1) >= w * (w - 1)) by (nonlinear_arith)
                requires
                    k >= w,
                    w > 1,
            ;
            assert(w * (w - 1) > c * w + 1) by (nonlinear_arith)
                requires
                    w == 0x1000000000000000000000000int,
                    c == 0xffffffff00000001int,
            ;
            assert(false);
        }
        if km < c {
            assert(m - k - 1 == (c - km) * w) by (nonlinear_arith)
                requires
                    km * w + m - k == c * w + 1,
            ;
            assert((c - km) * w >= w) by (nonlinear_arith)
                requires
                    c - km >= 1,
                    w > 0,
            ;
            assert(km >= m) by (nonlinear_arith)
                requires
                    km == k * m,
                    k >= 1,
                    m >= 1,
            ;
            assert(false);
        }
        assert(m == k + 1);
        let e = k / 2;
        assert(km % 2 == 0) by {
            if k % 2 == 0 {
                assert(km == 2 * (e * m)) by (nonlinear_arith)
                    requires
                        km == k * m,
                        k == 2 * e,
                ;
            } else {
                assert(km == 2 * (k * (e + 1))) by (nonlinear_arith)
                    requires
                        km == k * m,
                        m == 2 * (e + 1),
                ;
            }
        }
        assert(false);
    }
}

/// The field prime is a prime number.
pub proof fn law_field_prime_is_prime()
    ensures
        is_prime(p256_prime()),
{
    let p = p256_prime();
    let w = word_96();
    if !is_prime(p) {
        let d = choose|d: int| 1 < d < p && #[trigger] (p % d) == 0;
        let r = lemma_prime_divisor(d);
        lemma_coarser(p, d, r);
        lemma_divisor_shape(r);
        let s = p / r;
        lemma_fundamental_div_mod(p, r);
        assert(r * s == p);
        assert(s > 1) by (nonlinear_arith)
            requires
                r * s == p,
                1 < r < p,
        ;
        // The cofactor has the opposite sign, since the prime is one less than a multiple.
        lemma_mod_multiples_basic(p / w + 1, w);
        assert((p + 1) % w == 0);
        if (r - 1) % w == 0 {
            lemma_combine(w, p + 1, 1, r - 1, -s);
            assert((p + 1) * 1 + (r - 1) * (-s) == s + 1) by (nonlinear_arith)
                requires
                    r * s == p,
            ;
            lemma_split(r - 1, w);
            lemma_split(s + 1, w);
            lemma_no_such_product((r - 1) / w, (s + 1) / w);
        } else {
            lemma_combine(w, p + 1, -1, r + 1, s);
            assert((p + 1) * (-1) + (r + 1) * s == s - 1) by (nonlinear_arith)
                requires
                    r * s == p,
            ;
            lemma_split(r + 1, w);
            lemma_split(s - 1, w);
            lemma_no_such_product((s - 1) / w, (r + 1) / w);
            assert(s * r == r * s) by (nonlinear_arith);
        }
        assert(false);
    }
}

/// A positive multiple is a positive number of times the word.
proof fn lemma_split(a: int, w: int)
    requires
        w > 0,
        a > 0,
        a % w == 0,
    ensures
        a == (a / w) * w,
        a / w >= 1,
{
    lemma_fundamental_div_mod(a, w);
    let q = a / w;
    assert(a == q * w) by (nonlinear_arith)
        requires
            a == w * q,
    ;
    assert(q >= 1) by (nonlinear_arith)
        requires
            a == q * w,
            a > 0,
            w > 0,
    ;
}

/// Two points with the same first coordinate and different second coordinates are inverses
/// of each other: their second coordinates add up to the prime.
pub proof fn law_equal_x_are_inverses(a: P256AffinePoint, b: P256AffinePoint)
    requires
        a.on_curve(),
        b.on_curve(),
        a.x == b.x,
        a.y != b.y,
    ensures
        operand_value(a.y) + operand_value(b.y) == p256_prime(),
{
    let p = p256_prime();
    let (u, v) = (operand_value(a.y), operand_value(b.y));
    if u == v {
        lemma_be_value_injective(a.y@, b.y@);
        assert(a.y =~= b.y);
    }
    law_field_prime_is_prime();
    lemma_fundamental_div_mod(u * u, p);
    lemma_fundamental_div_mod(v * v, p);
    let q = (u * u) / p - (v * v) / p;
    assert(u * u - v * v == q * p) by (nonlinear_arith)
        requires
            u * u == p * ((u * u) / p) + (u * u) % p,
            v * v == p * ((v * v) / p) + (v * v) % p,
            (u * u) % p == (v * v) % p,
            q == (u * u) / p - (v * v) / p,
    ;
    lemma_mod_multiples_basic(q, p);
    assert((u - v) * (u + v) == u * u - v * v) by (nonlinear_arith);
    lemma_euclid(p, u - v, u + v);
    if (u - v) % p == 0 {
        lemma_fundamental_div_mod(u - v, p);
        let k = (u - v) / p;
        assert(k == 0) by (nonlinear_arith)
            requires
                u - v == p * k,
                -p < u - v < p,
                p > 0,
        ;
    } else {
        lemma_fundamental_div_mod(u + v, p);
        let k = (u + v) / p;
        assert(k == 1) by (nonlinear_arith)
            requires
                u + v == p * k,
                0 < u + v < 2 * p,
                p > 0,
        ;
    }
}

/// The power with exponent two below the prime is the inverse: this is how a Jacobian
/// coordinate is divided out.
pub proof fn law_power_inverts(x: int)
    requires
        0 < x < p256_prime(),
    ensures
        (x * pow(x, (p256_prime() - 2) as nat)) % p256_prime() == 1,
{
    let p = p256_prime();
    law_field_prime_is_prime();
    lemma_fermat(x, p);
    reveal(pow);
    let e = pow(x, (p - 1) as nat);
    assert(pow(x, p as nat) == x * e);
    assert(e == x * pow(x, (p - 2) as nat));
    assert(x * (e - 1) == x * e - x) by (nonlinear_arith);
    lemma_euclid(p, x, e - 1);
    lemma_small_mod(x as nat, p as nat);
    lemma_fundamental_div_mod(e - 1, p);
    lemma_fundamental_div_mod_converse(e, p, (e - 1) / p, 1);
}

} // verus!
