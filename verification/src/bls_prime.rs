//! The order of the scalar field of BLS12-381 is prime.
//!
//! The order is `z^4 - z^2 + 1` for `z = 0xd201000000010000`, whose prime factors are 2, 906349
//! and 254760293. An element of order `z^2` shows that it is prime; in turn an element of large
//! order shows that each of these factors is.

use crate::field::bls12381_modulus;
use crate::modular::is_prime;
use crate::primes::{
    covers, has_order, lemma_covers_one, lemma_covers_power, lemma_covers_times,
    lemma_order_certificate, lemma_product, lemma_square, lemma_trial_division, no_divisor_up_to,
};
use vstd::arithmetic::power2::{lemma2_to64, lemma_pow2};
use vstd::arithmetic::power::{lemma_pow1, pow};
use vstd::prelude::*;

verus! {

/// 2 is prime: no number lies between 1 and itself.
proof fn lemma_prime_2()
    ensures
        is_prime(2),
{
    assert(no_divisor_up_to(2, 1));
    lemma_trial_division(2, 1);
}

/// 359 is prime: no number from 2 to 18 divides it.
proof fn lemma_prime_359()
    ensures
        is_prime(359),
{
    assert(no_divisor_up_to(359, 1));
    assert(no_divisor_up_to(359, 2));
    assert(no_divisor_up_to(359, 3));
    assert(no_divisor_up_to(359, 4));
    assert(no_divisor_up_to(359, 5));
    assert(no_divisor_up_to(359, 6));
    assert(no_divisor_up_to(359, 7));
    assert(no_divisor_up_to(359, 8));
    assert(no_divisor_up_to(359, 9));
    assert(no_divisor_up_to(359, 10));
    assert(no_divisor_up_to(359, 11));
    assert(no_divisor_up_to(359, 12));
    assert(no_divisor_up_to(359, 13));
    assert(no_divisor_up_to(359, 14));
    assert(no_divisor_up_to(359, 15));
    assert(no_divisor_up_to(359, 16));
    assert(no_divisor_up_to(359, 17));
    assert(no_divisor_up_to(359, 18));
    lemma_trial_division(359, 18);
}

/// 73 is prime: no number from 2 to 8 divides it.
proof fn lemma_prime_73()
    ensures
        is_prime(73),
{
    assert(no_divisor_up_to(73, 1));
    assert(no_divisor_up_to(73, 2));
    assert(no_divisor_up_to(73, 3));
    assert(no_divisor_up_to(73, 4));
    assert(no_divisor_up_to(73, 5));
    assert(no_divisor_up_to(73, 6));
    assert(no_divisor_up_to(73, 7));
    assert(no_divisor_up_to(73, 8));
    lemma_trial_division(73, 8);
}

/// 110573 is prime: 49205 has the order 359 modulo it.
proof fn lemma_prime_110573()
    ensures
        is_prime(110573),
{
    lemma_prime_359();
    let qs = seq![359int];
    lemma_covers_one(qs);
    lemma_covers_times(1, qs, 0);
    lemma_pow1(49205);
    lemma_square(110573, 49205, 1, 49205, 25617);
    lemma_square(110573, 49205, 2, 25617, 90507);
    lemma_product(110573, 49205, 4, 90507, 1, 49205, 69360);
    lemma_square(110573, 49205, 5, 69360, 110089);
    lemma_product(110573, 49205, 10, 110089, 1, 49205, 68548);
    lemma_square(110573, 49205, 11, 68548, 28669);
    lemma_square(110573, 49205, 22, 28669, 22452);
    lemma_square(110573, 49205, 44, 22452, 100570);
    lemma_product(110573, 49205, 88, 100570, 1, 49205, 73381);
    lemma_square(110573, 49205, 89, 73381, 87207);
    lemma_product(110573, 49205, 178, 87207, 1, 49205, 14024);
    lemma_square(110573, 49205, 179, 14024, 73782);
    lemma_product(110573, 49205, 358, 73782, 1, 49205, 1);
    assert(359nat / 359nat == 1);
    assert(((49205 - 1) * 49392) % 110573 == 1);
    assert(has_order(110573, 49205, 359, qs, seq![49392int]));
    lemma_order_certificate(110573, 49205, 359, qs, seq![49392int]);
}

/// 2653753 is prime: 854698 has the order 110573 modulo it.
proof fn lemma_prime_2653753()
    ensures
        is_prime(2653753),
{
    lemma_prime_110573();
    let qs = seq![110573int];
    lemma_covers_one(qs);
    lemma_covers_times(1, qs, 0);
    lemma_pow1(854698);
    lemma_square(2653753, 854698, 1, 854698, 2121635);
    lemma_product(2653753, 854698, 2, 2121635, 1, 854698, 2652529);
    lemma_square(2653753, 854698, 3, 2652529, 1498176);
    lemma_square(2653753, 854698, 6, 1498176, 308341);
    lemma_product(2653753, 854698, 12, 308341, 1, 854698, 2186847);
    lemma_square(2653753, 854698, 13, 2186847, 711392);
    lemma_square(2653753, 854698, 26, 711392, 2573058);
    lemma_product(2653753, 854698, 52, 2573058, 1, 854698, 1185360);
    lemma_square(2653753, 854698, 53, 1185360, 1036196);
    lemma_product(2653753, 854698, 106, 1036196, 1, 854698, 313871);
    lemma_square(2653753, 854698, 107, 313871, 2385775);
    lemma_product(2653753, 854698, 214, 2385775, 1, 854698, 2507033);
    lemma_square(2653753, 854698, 215, 2507033, 2167817);
    lemma_product(2653753, 854698, 430, 2167817, 1, 854698, 2393443);
    lemma_square(2653753, 854698, 431, 2393443, 366998);
    lemma_product(2653753, 854698, 862, 366998, 1, 854698, 1505757);
    lemma_square(2653753, 854698, 863, 1505757, 1269921);
    lemma_product(2653753, 854698, 1726, 1269921, 1, 854698, 693093);
    lemma_square(2653753, 854698, 1727, 693093, 846095);
    lemma_product(2653753, 854698, 3454, 846095, 1, 854698, 50551);
    lemma_square(2653753, 854698, 3455, 50551, 2493215);
    lemma_square(2653753, 854698, 6910, 2493215, 1854061);
    lemma_product(2653753, 854698, 13820, 1854061, 1, 854698, 162158);
    lemma_square(2653753, 854698, 13821, 162158, 1832240);
    lemma_product(2653753, 854698, 27642, 1832240, 1, 854698, 373184);
    lemma_square(2653753, 854698, 27643, 373184, 2647922);
    lemma_square(2653753, 854698, 55286, 2647922, 2155525);
    lemma_product(2653753, 854698, 110572, 2155525, 1, 854698, 1);
    assert(110573nat / 110573nat == 1);
    assert(((854698 - 1) * 166544) % 2653753 == 1);
    assert(has_order(2653753, 854698, 110573, qs, seq![166544int]));
    lemma_order_certificate(2653753, 854698, 110573, qs, seq![166544int]);
}

/// 63690073 is prime: 16777216 has the order 2653753 modulo it.
proof fn lemma_prime_63690073()
    ensures
        is_prime(63690073),
{
    lemma_prime_2653753();
    let qs = seq![2653753int];
    lemma_covers_one(qs);
    lemma_covers_times(1, qs, 0);
    lemma_pow1(16777216);
    lemma_square(63690073, 16777216, 1, 16777216, 10970952);
    lemma_square(63690073, 16777216, 2, 10970952, 33070612);
    lemma_product(63690073, 16777216, 4, 33070612, 1, 16777216, 41720488);
    lemma_square(63690073, 16777216, 5, 41720488, 57476179);
    lemma_square(63690073, 16777216, 10, 57476179, 53436621);
    lemma_square(63690073, 16777216, 20, 53436621, 10725131);
    lemma_square(63690073, 16777216, 40, 10725131, 23274416);
    lemma_square(63690073, 16777216, 80, 23274416, 39009631);
    lemma_product(63690073, 16777216, 160, 39009631, 1, 16777216, 56846450);
    lemma_square(63690073, 16777216, 161, 56846450, 43684849);
    lemma_product(63690073, 16777216, 322, 43684849, 1, 16777216, 8126753);
    lemma_square(63690073, 16777216, 323, 8126753, 56224929);
    lemma_product(63690073, 16777216, 646, 56224929, 1, 16777216, 29732914);
    lemma_square(63690073, 16777216, 647, 29732914, 1749349);
    lemma_product(63690073, 16777216, 1294, 1749349, 1, 16777216, 56113108);
    lemma_square(63690073, 16777216, 1295, 56113108, 39428879);
    lemma_product(63690073, 16777216, 2590, 39428879, 1, 16777216, 3127971);
    lemma_square(63690073, 16777216, 2591, 3127971, 6182435);
    lemma_product(63690073, 16777216, 5182, 6182435, 1, 16777216, 50455058);
    lemma_square(63690073, 16777216, 5183, 50455058, 24389712);
    lemma_square(63690073, 16777216, 10366, 24389712, 30291266);
    lemma_square(63690073, 16777216, 20732, 30291266, 14627087);
    lemma_square(63690073, 16777216, 41464, 14627087, 32099443);
    lemma_product(63690073, 16777216, 82928, 32099443, 1, 16777216, 42560209);
    lemma_square(63690073, 16777216, 82929, 42560209, 46904262);
    lemma_product(63690073, 16777216, 165858, 46904262, 1, 16777216, 46872873);
    lemma_square(63690073, 16777216, 165859, 46872873, 26460726);
    lemma_product(63690073, 16777216, 331718, 26460726, 1, 16777216, 55728814);
    lemma_square(63690073, 16777216, 331719, 55728814, 22888620);
    lemma_square(63690073, 16777216, 663438, 22888620, 52105819);
    lemma_square(63690073, 16777216, 1326876, 52105819, 20615589);
    lemma_product(63690073, 16777216, 2653752, 20615589, 1, 16777216, 1);
    assert(2653753nat / 2653753nat == 1);
    assert(((16777216 - 1) * 34981479) % 63690073 == 1);
    assert(has_order(63690073, 16777216, 2653753, qs, seq![34981479int]));
    lemma_order_certificate(63690073, 16777216, 2653753, qs, seq![34981479int]);
}

/// 254760293 is prime: 16 has the order 63690073 modulo it.
proof fn lemma_prime_254760293()
    ensures
        is_prime(254760293),
{
    lemma_prime_63690073();
    let qs = seq![63690073int];
    lemma_covers_one(qs);
    lemma_covers_times(1, qs, 0);
    lemma_pow1(16);
    lemma_square(254760293, 16, 1, 16, 256);
    lemma_product(254760293, 16, 2, 256, 1, 16, 4096);
    lemma_square(254760293, 16, 3, 4096, 16777216);
    lemma_product(254760293, 16, 6, 16777216, 1, 16, 13675163);
    lemma_square(254760293, 16, 7, 13675163, 232876403);
    lemma_product(254760293, 16, 14, 232876403, 1, 16, 159378346);
    lemma_square(254760293, 16, 15, 159378346, 32861211);
    lemma_square(254760293, 16, 30, 32861211, 110679803);
    lemma_square(254760293, 16, 60, 110679803, 30963239);
    lemma_product(254760293, 16, 120, 30963239, 1, 16, 240651531);
    lemma_square(254760293, 16, 121, 240651531, 210237094);
    lemma_square(254760293, 16, 242, 210237094, 188091594);
    lemma_product(254760293, 16, 484, 188091594, 1, 16, 207102281);
    lemma_square(254760293, 16, 485, 207102281, 12984339);
    lemma_product(254760293, 16, 970, 12984339, 1, 16, 207749424);
    lemma_square(254760293, 16, 971, 207749424, 209827703);
    lemma_product(254760293, 16, 1942, 209827703, 1, 16, 45359439);
    lemma_square(254760293, 16, 1943, 45359439, 187487166);
    lemma_product(254760293, 16, 3886, 187487166, 1, 16, 197431433);
    lemma_square(254760293, 16, 3887, 197431433, 103260729);
    lemma_square(254760293, 16, 7774, 103260729, 88742561);
    lemma_product(254760293, 16, 15548, 88742561, 1, 16, 146079511);
    lemma_square(254760293, 16, 15549, 146079511, 24062497);
    lemma_square(254760293, 16, 31098, 24062497, 108322482);
    lemma_product(254760293, 16, 62196, 108322482, 1, 16, 204597954);
    lemma_square(254760293, 16, 62197, 204597954, 228038418);
    lemma_square(254760293, 16, 124394, 228038418, 149636473);
    lemma_product(254760293, 16, 248788, 149636473, 1, 16, 101340931);
    lemma_square(254760293, 16, 248789, 101340931, 236510555);
    lemma_square(254760293, 16, 497578, 236510555, 220344470);
    lemma_product(254760293, 16, 995156, 220344470, 1, 16, 213627711);
    lemma_square(254760293, 16, 995157, 213627711, 210623838);
    lemma_square(254760293, 16, 1990314, 210623838, 41460181);
    lemma_product(254760293, 16, 3980628, 41460181, 1, 16, 153842310);
    lemma_square(254760293, 16, 3980629, 153842310, 173097381);
    lemma_product(254760293, 16, 7961258, 173097381, 1, 16, 221955166);
    lemma_square(254760293, 16, 7961259, 221955166, 94575019);
    lemma_square(254760293, 16, 15922518, 94575019, 63690073);
    lemma_square(254760293, 16, 31845036, 63690073, 47767555);
    lemma_product(254760293, 16, 63690072, 47767555, 1, 16, 1);
    assert(63690073nat / 63690073nat == 1);
    assert(((16 - 1) * 220792254) % 254760293 == 1);
    assert(has_order(254760293, 16, 63690073, qs, seq![220792254int]));
    lemma_order_certificate(254760293, 16, 63690073, qs, seq![220792254int]);
}

/// 1607 is prime: 34 has the order 73 modulo it.
proof fn lemma_prime_1607()
    ensures
        is_prime(1607),
{
    lemma_prime_73();
    let qs = seq![73int];
    lemma_covers_one(qs);
    lemma_covers_times(1, qs, 0);
    lemma_pow1(34);
    lemma_square(1607, 34, 1, 34, 1156);
    lemma_square(1607, 34, 2, 1156, 919);
    lemma_square(1607, 34, 4, 919, 886);
    lemma_product(1607, 34, 8, 886, 1, 34, 1198);
    lemma_square(1607, 34, 9, 1198, 153);
    lemma_square(1607, 34, 18, 153, 911);
    lemma_square(1607, 34, 36, 911, 709);
    lemma_product(1607, 34, 72, 709, 1, 34, 1);
    assert(73nat / 73nat == 1);
    assert(((34 - 1) * 487) % 1607 == 1);
    assert(has_order(1607, 34, 73, qs, seq![487int]));
    lemma_order_certificate(1607, 34, 73, qs, seq![487int]);
}

/// 906349 is prime: 210417 has the order 1607 modulo it.
proof fn lemma_prime_906349()
    ensures
        is_prime(906349),
{
    lemma_prime_1607();
    let qs = seq![1607int];
    lemma_covers_one(qs);
    lemma_covers_times(1, qs, 0);
    lemma_pow1(210417);
    lemma_square(906349, 210417, 1, 210417, 165239);
    lemma_product(906349, 210417, 2, 165239, 1, 210417, 640674);
    lemma_square(906349, 210417, 3, 640674, 370901);
    lemma_square(906349, 210417, 6, 370901, 87883);
    lemma_square(906349, 210417, 12, 87883, 421860);
    lemma_product(906349, 210417, 24, 421860, 1, 210417, 507258);
    lemma_square(906349, 210417, 25, 507258, 10162);
    lemma_square(906349, 210417, 50, 10162, 848807);
    lemma_square(906349, 210417, 100, 848807, 188867);
    lemma_square(906349, 210417, 200, 188867, 472445);
    lemma_product(906349, 210417, 400, 472445, 1, 210417, 288547);
    lemma_square(906349, 210417, 401, 288547, 339371);
    lemma_product(906349, 210417, 802, 339371, 1, 210417, 2695);
    lemma_square(906349, 210417, 803, 2695, 12233);
    lemma_product(906349, 210417, 1606, 12233, 1, 210417, 1);
    assert(1607nat / 1607nat == 1);
    assert(((210417 - 1) * 298534) % 906349 == 1);
    assert(has_order(906349, 210417, 1607, qs, seq![298534int]));
    lemma_order_certificate(906349, 210417, 1607, qs, seq![298534int]);
}

/// An element of order `z^2` modulo the order of the scalar field.
spec fn root() -> int {
    0x31aea2f836f51174050e1eabd824ad064f68ec321f2bc1d3e279a1eb2856e040int
}

/// Whether the power of the element for `e` leaves `y`.
spec fn power_leaves(e: nat, y: int) -> bool {
    pow(root(), e) % (bls12381_modulus() as int) == y
}

/// One step by squaring.
proof fn square(e: nat, y: int, z: int)
    requires
        power_leaves(e, y),
        (y * y) % (bls12381_modulus() as int) == z,
    ensures
        power_leaves(2 * e, z),
{
    lemma_square(bls12381_modulus() as int, root(), e, y, z);
}

/// One step by a product.
proof fn product(e: nat, y: int, d: nat, x: int, z: int)
    requires
        power_leaves(e, y),
        power_leaves(d, x),
        (y * x) % (bls12381_modulus() as int) == z,
    ensures
        power_leaves(e + d, z),
{
    lemma_product(bls12381_modulus() as int, root(), e, y, d, x, z);
}

/// From the element to its power for `2^31`.
proof fn lemma_power_1()
    requires
        power_leaves(
            1,
            0x31aea2f836f51174050e1eabd824ad064f68ec321f2bc1d3e279a1eb2856e040int,
        ),
    ensures
        power_leaves(
            0x80000000nat,
            0x11f30918c6d0158f37e650ce3223c33d82a63d2f9578b3fb79beb6f99f8919d2int,
        ),
{
    square(
        1,
        0x31aea2f836f51174050e1eabd824ad064f68ec321f2bc1d3e279a1eb2856e040int,
        0xb14a10e5ff60adc9a82ab6a55ead7f42a46c05033bc721c9c16ddc5bdc614ebint,
    );
    square(
        2,
        0xb14a10e5ff60adc9a82ab6a55ead7f42a46c05033bc721c9c16ddc5bdc614ebint,
        0x65fb3b2851db20f83cd09ecee7d9dce4ce901ef029d189f98ef31baffa8cc1a9int,
    );
    square(
        4,
        0x65fb3b2851db20f83cd09ecee7d9dce4ce901ef029d189f98ef31baffa8cc1a9int,
        0x2dcb3f9533733cb8067fe544fe2273ef1aab64a0df62cfddd158e514830f7f8int,
    );
    square(
        8,
        0x2dcb3f9533733cb8067fe544fe2273ef1aab64a0df62cfddd158e514830f7f8int,
        0x67b0b5d272c5c578bd983dbbafe0930a39ff7b8361728337c4e4ec80c489bec6int,
    );
    square(
        16,
        0x67b0b5d272c5c578bd983dbbafe0930a39ff7b8361728337c4e4ec80c489bec6int,
        0x4a653a1000c15e64d0209ae1a413b90ec39e9e95dfdfd0b0825da8e1e8ba3810int,
    );
    square(
        32,
        0x4a653a1000c15e64d0209ae1a413b90ec39e9e95dfdfd0b0825da8e1e8ba3810int,
        0x5063751884025b79483b84b5643e7912d610261efd3b93d5d7b2fd0346f4ae8fint,
    );
    square(
        64,
        0x5063751884025b79483b84b5643e7912d610261efd3b93d5d7b2fd0346f4ae8fint,
        0x129f18d35142244d363a8c70798778db11600b109c83593bc5e68839e7386bd7int,
    );
    square(
        128,
        0x129f18d35142244d363a8c70798778db11600b109c83593bc5e68839e7386bd7int,
        0x50d7942eac41282894bcdd4a657befe6b9635bd2e453a26cbf3956a656e71d8bint,
    );
    square(
        256,
        0x50d7942eac41282894bcdd4a657befe6b9635bd2e453a26cbf3956a656e71d8bint,
        0x704937a8a46351a4cc6750b167269949a8375a302393855e2425bbf5b34eef01int,
    );
    square(
        512,
        0x704937a8a46351a4cc6750b167269949a8375a302393855e2425bbf5b34eef01int,
        0x1faf17d940593d6aa93e971ca1c4d5e5431bd2e2fa66326d72c0cff9f308290cint,
    );
    square(
        1024,
        0x1faf17d940593d6aa93e971ca1c4d5e5431bd2e2fa66326d72c0cff9f308290cint,
        0x700df6fd5dfe44311ca32ac0211bbe3a7418fffe7df1069a89d45918898b29dcint,
    );
    square(
        2048,
        0x700df6fd5dfe44311ca32ac0211bbe3a7418fffe7df1069a89d45918898b29dcint,
        0x8fb4bd3e62898fa90297fa8b16ac6b2e1989e73af82902bff6e0fefb166126cint,
    );
    square(
        4096,
        0x8fb4bd3e62898fa90297fa8b16ac6b2e1989e73af82902bff6e0fefb166126cint,
        0x660a4a00c312a21c6f87668d56095335285832e6e8a5f6c6baac6e9e89b5b4e5int,
    );
    square(
        8192,
        0x660a4a00c312a21c6f87668d56095335285832e6e8a5f6c6baac6e9e89b5b4e5int,
        0x4af58d3c283935782a38f8c06f055520de2bd7ed533d80d29070d30e9c0087a3int,
    );
    square(
        0x4000nat,
        0x4af58d3c283935782a38f8c06f055520de2bd7ed533d80d29070d30e9c0087a3int,
        0x3791f4aaf8bf5c197daf29f99c9f19f3839021db1e5e1b8e569aa74afe637dd6int,
    );
    square(
        0x8000nat,
        0x3791f4aaf8bf5c197daf29f99c9f19f3839021db1e5e1b8e569aa74afe637dd6int,
        0x1ad4c6af6aa8732339e1b66d62e99882bba5969cd5fb473278cb332e7b8e3d89int,
    );
    square(
        0x10000nat,
        0x1ad4c6af6aa8732339e1b66d62e99882bba5969cd5fb473278cb332e7b8e3d89int,
        0xdad7c41b1b6afb3e3a7910507744828bd684c5086f47a6e1a11bed5c8f5697fint,
    );
    square(
        0x20000nat,
        0xdad7c41b1b6afb3e3a7910507744828bd684c5086f47a6e1a11bed5c8f5697fint,
        0x1f37465ab0672a850762027daba045a1f8efbe69f7348fffabac519bef5855bbint,
    );
    square(
        0x40000nat,
        0x1f37465ab0672a850762027daba045a1f8efbe69f7348fffabac519bef5855bbint,
        0x1dcac77e9f5622a64ba5595ec416807545c7f228768f1069fc7477c8b8a50b64int,
    );
    square(
        0x80000nat,
        0x1dcac77e9f5622a64ba5595ec416807545c7f228768f1069fc7477c8b8a50b64int,
        0x1cdfc6fc9289203c4dc6c19aa1d2617b13f85f7c2ceb8dd20dad04258a63baa3int,
    );
    square(
        0x100000nat,
        0x1cdfc6fc9289203c4dc6c19aa1d2617b13f85f7c2ceb8dd20dad04258a63baa3int,
        0x6f42a2346728d7807ca1951496e66dbc727b8bc87059e3b9a08faea1b1a2f168int,
    );
    square(
        0x200000nat,
        0x6f42a2346728d7807ca1951496e66dbc727b8bc87059e3b9a08faea1b1a2f168int,
        0x5659505b5c0b8e5a5702cbc7070adee18728b3ad786f1f3270336919aabda984int,
    );
    square(
        0x400000nat,
        0x5659505b5c0b8e5a5702cbc7070adee18728b3ad786f1f3270336919aabda984int,
        0x4133fdf144e349420a988cdebbc75302e493cd0254379bdf5ba2f1749fd58a4eint,
    );
    square(
        0x800000nat,
        0x4133fdf144e349420a988cdebbc75302e493cd0254379bdf5ba2f1749fd58a4eint,
        0x4feb4850750998b62c04affeefb311df50d53726d463146f7842c4d0c1837caint,
    );
    square(
        0x1000000nat,
        0x4feb4850750998b62c04affeefb311df50d53726d463146f7842c4d0c1837caint,
        0x62b0999cf1372f1234f1a3317c5c27375d86b6fd317f8a2fff5aa43968117b6eint,
    );
    square(
        0x2000000nat,
        0x62b0999cf1372f1234f1a3317c5c27375d86b6fd317f8a2fff5aa43968117b6eint,
        0x541b3c2933c68dee34fa0069a72d1b7f2cae4861cfb5700c7fcff7dbde2e44a0int,
    );
    square(
        0x4000000nat,
        0x541b3c2933c68dee34fa0069a72d1b7f2cae4861cfb5700c7fcff7dbde2e44a0int,
        0x22a3d37933ea5414ef3fcbef6b4a854e64a29bdfc023941f9c153a9f8d2cb748int,
    );
    square(
        0x8000000nat,
        0x22a3d37933ea5414ef3fcbef6b4a854e64a29bdfc023941f9c153a9f8d2cb748int,
        0x2769383871434f6c16ed0eb30f9788dc98bd2a959b8783324d611b19042ea4d3int,
    );
    square(
        0x10000000nat,
        0x2769383871434f6c16ed0eb30f9788dc98bd2a959b8783324d611b19042ea4d3int,
        0x30e7e075947ceeade35e89ea314ef8f147bf47426738367f631f5a37f0e5e21eint,
    );
    square(
        0x20000000nat,
        0x30e7e075947ceeade35e89ea314ef8f147bf47426738367f631f5a37f0e5e21eint,
        0x9deb8af6f9b78bac40c3eaaa2615f11ec52662483c03a10c505f04acf007296int,
    );
    square(
        0x40000000nat,
        0x9deb8af6f9b78bac40c3eaaa2615f11ec52662483c03a10c505f04acf007296int,
        0x11f30918c6d0158f37e650ce3223c33d82a63d2f9578b3fb79beb6f99f8919d2int,
    );
}

/// On to the power for `2^31` times 906349.
proof fn lemma_power_2()
    requires
        power_leaves(
            0x80000000nat,
            0x11f30918c6d0158f37e650ce3223c33d82a63d2f9578b3fb79beb6f99f8919d2int,
        ),
    ensures
        power_leaves(
            0x6ea3680000000nat,
            0x5f3f350eebf054767bed8599431d04f37562c10a2bc834fcf996b7109718faaeint,
        ),
{
    square(
        0x80000000nat,
        0x11f30918c6d0158f37e650ce3223c33d82a63d2f9578b3fb79beb6f99f8919d2int,
        0x5747e632b7175c900c98c71288aa7d71aad444c77856f468ffc4fe4694b88ec9int,
    );
    product(
        0x100000000nat,
        0x5747e632b7175c900c98c71288aa7d71aad444c77856f468ffc4fe4694b88ec9int,
        0x80000000nat,
        0x11f30918c6d0158f37e650ce3223c33d82a63d2f9578b3fb79beb6f99f8919d2int,
        0x2256f39d196bc1310c6bdf11e1d5aca6c2e7f7ae8609e115ba7364bac0400506int,
    );
    square(
        0x180000000nat,
        0x2256f39d196bc1310c6bdf11e1d5aca6c2e7f7ae8609e115ba7364bac0400506int,
        0x286b700e308aab92dd2b4a92fdf60b1471d08e877c337ca111dd14f277907601int,
    );
    square(
        0x300000000nat,
        0x286b700e308aab92dd2b4a92fdf60b1471d08e877c337ca111dd14f277907601int,
        0x58936d5c9f1f8d31328094d17ac34c15db166e6e276f59c625ef452a1d31c5faint,
    );
    product(
        0x600000000nat,
        0x58936d5c9f1f8d31328094d17ac34c15db166e6e276f59c625ef452a1d31c5faint,
        0x80000000nat,
        0x11f30918c6d0158f37e650ce3223c33d82a63d2f9578b3fb79beb6f99f8919d2int,
        0x65f28694cc4a2ecc178264090ed96d666e435c29e37344c27fbd7559180adcfbint,
    );
    square(
        0x680000000nat,
        0x65f28694cc4a2ecc178264090ed96d666e435c29e37344c27fbd7559180adcfbint,
        0x6379d0237b46f9b83ebcdbf615f07620bd55212197a47e63c4e2c3734b69f1f0int,
    );
    product(
        0xd00000000nat,
        0x6379d0237b46f9b83ebcdbf615f07620bd55212197a47e63c4e2c3734b69f1f0int,
        0x80000000nat,
        0x11f30918c6d0158f37e650ce3223c33d82a63d2f9578b3fb79beb6f99f8919d2int,
        0x3614fc58445e1dbedc2f42d7e544c7b927908a4776d66f1467208b0c9d9cea61int,
    );
    square(
        0xd80000000nat,
        0x3614fc58445e1dbedc2f42d7e544c7b927908a4776d66f1467208b0c9d9cea61int,
        0x53be72139698dc72f301ff8b86c6313d92aecbde9e1ce303a573270d65a3913cint,
    );
    product(
        0x1b00000000nat,
        0x53be72139698dc72f301ff8b86c6313d92aecbde9e1ce303a573270d65a3913cint,
        0x80000000nat,
        0x11f30918c6d0158f37e650ce3223c33d82a63d2f9578b3fb79beb6f99f8919d2int,
        0x365b324c33c3a2c851d055a3916e323d9ab5a6c8018aedf2bf8b72477d633078int,
    );
    square(
        0x1b80000000nat,
        0x365b324c33c3a2c851d055a3916e323d9ab5a6c8018aedf2bf8b72477d633078int,
        0x3d6b6e97dfe7113b583ac3a647c01133484136df9304038ac770899b0ead9d84int,
    );
    square(
        0x3700000000nat,
        0x3d6b6e97dfe7113b583ac3a647c01133484136df9304038ac770899b0ead9d84int,
        0x50030836e28073187cee9a8e84becebce97322e44532adbc5bcd9a0d308e6a1cint,
    );
    product(
        0x6e00000000nat,
        0x50030836e28073187cee9a8e84becebce97322e44532adbc5bcd9a0d308e6a1cint,
        0x80000000nat,
        0x11f30918c6d0158f37e650ce3223c33d82a63d2f9578b3fb79beb6f99f8919d2int,
        0x51a3f124e5fad7b93e99d4e189cf7c214fbbb9cf06cbe2e28b2564f2f6c07f0aint,
    );
    square(
        0x6e80000000nat,
        0x51a3f124e5fad7b93e99d4e189cf7c214fbbb9cf06cbe2e28b2564f2f6c07f0aint,
        0xe68e3ee07c344b1f52483bfb2922d0cbd1c45d6cc36240ee37c86e47c89cb3eint,
    );
    square(
        0xdd00000000nat,
        0xe68e3ee07c344b1f52483bfb2922d0cbd1c45d6cc36240ee37c86e47c89cb3eint,
        0x303c18f8979b425d5f19d188c86261c4f6e7dcf7d011100b0b08c20da8dc4251int,
    );
    product(
        0x1ba00000000nat,
        0x303c18f8979b425d5f19d188c86261c4f6e7dcf7d011100b0b08c20da8dc4251int,
        0x80000000nat,
        0x11f30918c6d0158f37e650ce3223c33d82a63d2f9578b3fb79beb6f99f8919d2int,
        0x461b124e5080a1549ae44dc22f2dda158f929c302d5f5812b8f43f023095d91aint,
    );
    square(
        0x1ba80000000nat,
        0x461b124e5080a1549ae44dc22f2dda158f929c302d5f5812b8f43f023095d91aint,
        0x3fffd8a562559b671172b75fab32cb837345f4ef686bffe3572cc8ce5e9f5d6bint,
    );
    square(
        0x37500000000nat,
        0x3fffd8a562559b671172b75fab32cb837345f4ef686bffe3572cc8ce5e9f5d6bint,
        0xf000f822d183cf8ea799837bbb9d4a211ad65b1d239bb12681272239b9302e1int,
    );
    square(
        0x6ea00000000nat,
        0xf000f822d183cf8ea799837bbb9d4a211ad65b1d239bb12681272239b9302e1int,
        0x58aacfcd560af1e0ebf677c7ec06c64f39515de05c59a33f389764b8e59787b0int,
    );
    square(
        0xdd400000000nat,
        0x58aacfcd560af1e0ebf677c7ec06c64f39515de05c59a33f389764b8e59787b0int,
        0x6404db72450255f31df3e89d0e8e6acd12d28f1d129d422b4592ac6be074c330int,
    );
    product(
        0x1ba800000000nat,
        0x6404db72450255f31df3e89d0e8e6acd12d28f1d129d422b4592ac6be074c330int,
        0x80000000nat,
        0x11f30918c6d0158f37e650ce3223c33d82a63d2f9578b3fb79beb6f99f8919d2int,
        0x2d826f056433862e72f9b641f38133c0c0c74dc06af3c977395b8474adcce77dint,
    );
    square(
        0x1ba880000000nat,
        0x2d826f056433862e72f9b641f38133c0c0c74dc06af3c977395b8474adcce77dint,
        0x718e80913681c8272bd76d76284ed19201417b741c0ab7156387c4ae89c2381int,
    );
    product(
        0x375100000000nat,
        0x718e80913681c8272bd76d76284ed19201417b741c0ab7156387c4ae89c2381int,
        0x80000000nat,
        0x11f30918c6d0158f37e650ce3223c33d82a63d2f9578b3fb79beb6f99f8919d2int,
        0x517459b03ec99239801e2f2e864e177162a1b06454f7b669e963c33d6137fad1int,
    );
    square(
        0x375180000000nat,
        0x517459b03ec99239801e2f2e864e177162a1b06454f7b669e963c33d6137fad1int,
        0x18b5c7dea046692a5fd0367a3b64c3e9b23b10c8efb44f774e6dbe66259eaa31int,
    );
    square(
        0x6ea300000000nat,
        0x18b5c7dea046692a5fd0367a3b64c3e9b23b10c8efb44f774e6dbe66259eaa31int,
        0x36fd5084b23dbe30ffda913a5a15c32850e739e2634da261cad3b483b1cbd08bint,
    );
    product(
        0xdd4600000000nat,
        0x36fd5084b23dbe30ffda913a5a15c32850e739e2634da261cad3b483b1cbd08bint,
        0x80000000nat,
        0x11f30918c6d0158f37e650ce3223c33d82a63d2f9578b3fb79beb6f99f8919d2int,
        0xeddc9a5899f033bcf6342efbdd18aeaa4447c1971f31a8bb8086c7320637f9fint,
    );
    square(
        0xdd4680000000nat,
        0xeddc9a5899f033bcf6342efbdd18aeaa4447c1971f31a8bb8086c7320637f9fint,
        0x49d24cb2bcc678007354f43b62f0d0d210bbc3de56e1c336cb3b75873b993998int,
    );
    product(
        0x1ba8d00000000nat,
        0x49d24cb2bcc678007354f43b62f0d0d210bbc3de56e1c336cb3b75873b993998int,
        0x80000000nat,
        0x11f30918c6d0158f37e650ce3223c33d82a63d2f9578b3fb79beb6f99f8919d2int,
        0x65b1fa8ba99daed455950ab68cc546232e04d27cf373198bef052565537cb945int,
    );
    square(
        0x1ba8d80000000nat,
        0x65b1fa8ba99daed455950ab68cc546232e04d27cf373198bef052565537cb945int,
        0x50da75fd6275b78b971e9fd5e9c3f5090d53c6e123860d013986dd6439bf4ab8int,
    );
    square(
        0x3751b00000000nat,
        0x50da75fd6275b78b971e9fd5e9c3f5090d53c6e123860d013986dd6439bf4ab8int,
        0x65bd3ba908944ca63ece3ade44e801ea4b850ab97692ec0f82c8e92d1107be5bint,
    );
    product(
        0x6ea3600000000nat,
        0x65bd3ba908944ca63ece3ade44e801ea4b850ab97692ec0f82c8e92d1107be5bint,
        0x80000000nat,
        0x11f30918c6d0158f37e650ce3223c33d82a63d2f9578b3fb79beb6f99f8919d2int,
        0x5f3f350eebf054767bed8599431d04f37562c10a2bc834fcf996b7109718faaeint,
    );
}

/// On to the power for `z^2` over `2`, 906349 and 254760293.
proof fn lemma_power_3()
    requires
        power_leaves(
            0x6ea3680000000nat,
            0x5f3f350eebf054767bed8599431d04f37562c10a2bc834fcf996b7109718faaeint,
        ),
    ensures
        power_leaves(
            0x69008000000080000000nat,
            0xd75edce4bcd0ca4b2623aa885c8ca0805d5eebaa6b181167df0e01885459b99int,
        ),
{
    square(
        0x6ea3680000000nat,
        0x5f3f350eebf054767bed8599431d04f37562c10a2bc834fcf996b7109718faaeint,
        0x1b78ece310394933a6b8fdc75d888084bb8266b178200493107d99beeee04772int,
    );
    product(
        0xdd46d00000000nat,
        0x1b78ece310394933a6b8fdc75d888084bb8266b178200493107d99beeee04772int,
        0x6ea3680000000nat,
        0x5f3f350eebf054767bed8599431d04f37562c10a2bc834fcf996b7109718faaeint,
        0x147d17b521939b75621a2497e278e4f51bbbc886b24f7a1bbeb7a2609a9ca307int,
    );
    square(
        0x14bea380000000nat,
        0x147d17b521939b75621a2497e278e4f51bbbc886b24f7a1bbeb7a2609a9ca307int,
        0x45a11a8af3c8f6b65c74e9c9e40b4673632b23bfbbd53e0f1c4f7272acc62468int,
    );
    product(
        0x297d4700000000nat,
        0x45a11a8af3c8f6b65c74e9c9e40b4673632b23bfbbd53e0f1c4f7272acc62468int,
        0x6ea3680000000nat,
        0x5f3f350eebf054767bed8599431d04f37562c10a2bc834fcf996b7109718faaeint,
        0x52e3f07c6ba7795777b9b703e7c578f5491e2e1ed7aebc7f829b5a655b22f85fint,
    );
    square(
        0x30677d80000000nat,
        0x52e3f07c6ba7795777b9b703e7c578f5491e2e1ed7aebc7f829b5a655b22f85fint,
        0x5f4d10fa2431c2994b5218c2f000bc777c4e38fccb01d26dcf61de0a3e681fc3int,
    );
    product(
        0x60cefb00000000nat,
        0x5f4d10fa2431c2994b5218c2f000bc777c4e38fccb01d26dcf61de0a3e681fc3int,
        0x6ea3680000000nat,
        0x5f3f350eebf054767bed8599431d04f37562c10a2bc834fcf996b7109718faaeint,
        0x2754c2099fef626304ac8e205ad601e0f1ecd63ad85e6b391408a6aab9f061b2int,
    );
    square(
        0x67b93180000000nat,
        0x2754c2099fef626304ac8e205ad601e0f1ecd63ad85e6b391408a6aab9f061b2int,
        0x266bfb44fa73a8dfc5f33c15f8102f017b73b757e585c10ea32124e1f843d470int,
    );
    square(
        0xcf726300000000nat,
        0x266bfb44fa73a8dfc5f33c15f8102f017b73b757e585c10ea32124e1f843d470int,
        0x4d9275ea6f4ce881278f999902bdfeebd6901248fae87e3747c9a5ad7dde0390int,
    );
    square(
        0x19ee4c600000000nat,
        0x4d9275ea6f4ce881278f999902bdfeebd6901248fae87e3747c9a5ad7dde0390int,
        0x2f72b22813ab0b85629d9547ee961f7ba31b6f23612151606839410627cf1503int,
    );
    product(
        0x33dc98c00000000nat,
        0x2f72b22813ab0b85629d9547ee961f7ba31b6f23612151606839410627cf1503int,
        0x6ea3680000000nat,
        0x5f3f350eebf054767bed8599431d04f37562c10a2bc834fcf996b7109718faaeint,
        0x4245d380cda970a5b4d2f4d44896cb2675e824bcd17690e6ddc687d30e37005bint,
    );
    square(
        0x344b3c280000000nat,
        0x4245d380cda970a5b4d2f4d44896cb2675e824bcd17690e6ddc687d30e37005bint,
        0x272a110568a6f6e78024659010468c2a516a1c880c5288d94d9e8bf3b4af349fint,
    );
    square(
        0x689678500000000nat,
        0x272a110568a6f6e78024659010468c2a516a1c880c5288d94d9e8bf3b4af349fint,
        0x416bd8335c49b70850e193f6b1e88469bd32a59b72682dfb014b2c30d049ae4int,
    );
    product(
        0xd12cf0a00000000nat,
        0x416bd8335c49b70850e193f6b1e88469bd32a59b72682dfb014b2c30d049ae4int,
        0x6ea3680000000nat,
        0x5f3f350eebf054767bed8599431d04f37562c10a2bc834fcf996b7109718faaeint,
        0x16e18a97f59a09545ad477d3fbf17500acfaf841e83ecfd47e2b416cc7498c23int,
    );
    square(
        0xd19b94080000000nat,
        0x16e18a97f59a09545ad477d3fbf17500acfaf841e83ecfd47e2b416cc7498c23int,
        0x3c4ede0c8518fead152c27b83e7e96445157d35033ae55075c6df2bb9d9ae8efint,
    );
    product(
        0x1a33728100000000nat,
        0x3c4ede0c8518fead152c27b83e7e96445157d35033ae55075c6df2bb9d9ae8efint,
        0x6ea3680000000nat,
        0x5f3f350eebf054767bed8599431d04f37562c10a2bc834fcf996b7109718faaeint,
        0x39f908c9b96f1fe3ea64e255e6a1bb180dabc76ddf7473068c5cdee94e1799c9int,
    );
    square(
        0x1a3a5cb780000000nat,
        0x39f908c9b96f1fe3ea64e255e6a1bb180dabc76ddf7473068c5cdee94e1799c9int,
        0x23419d7dbc5ef540bcfe2725b5847e97cd2109c6f6eaaa4a1271c927f566a4cdint,
    );
    product(
        0x3474b96f00000000nat,
        0x23419d7dbc5ef540bcfe2725b5847e97cd2109c6f6eaaa4a1271c927f566a4cdint,
        0x6ea3680000000nat,
        0x5f3f350eebf054767bed8599431d04f37562c10a2bc834fcf996b7109718faaeint,
        0x2a824cd5bc28784cbbd7dbdb73e42d1f24755b91d8714c6bcdb09d7ed3fed67bint,
    );
    square(
        0x347ba3a580000000nat,
        0x2a824cd5bc28784cbbd7dbdb73e42d1f24755b91d8714c6bcdb09d7ed3fed67bint,
        0x4f08268d693e5d52f178383c573a8e2602296b5fef1a180e7cc3d4d8dc17384eint,
    );
    product(
        0x68f7474b00000000nat,
        0x4f08268d693e5d52f178383c573a8e2602296b5fef1a180e7cc3d4d8dc17384eint,
        0x6ea3680000000nat,
        0x5f3f350eebf054767bed8599431d04f37562c10a2bc834fcf996b7109718faaeint,
        0x808c7ece5823c5b4c0b4cfb2186b2ea5b7c7e5b8a610fe88f7f94892361d9edint,
    );
    square(
        0x68fe318180000000nat,
        0x808c7ece5823c5b4c0b4cfb2186b2ea5b7c7e5b8a610fe88f7f94892361d9edint,
        0x165ee87b4c56a4c6f60edecd41ba4a560c883e75991edebb9794c79bafec773dint,
    );
    square(
        0xd1fc630300000000nat,
        0x165ee87b4c56a4c6f60edecd41ba4a560c883e75991edebb9794c79bafec773dint,
        0x1abc4393791787bf53c1e7e8daba20867d57613a6674d33eb41939e8d4875a60int,
    );
    product(
        0x1a3f8c60600000000nat,
        0x1abc4393791787bf53c1e7e8daba20867d57613a6674d33eb41939e8d4875a60int,
        0x6ea3680000000nat,
        0x5f3f350eebf054767bed8599431d04f37562c10a2bc834fcf996b7109718faaeint,
        0x2866b99f4c7655ccf403db6aefc4a1c8a48cde172856e6d7b688f128db54f8b3int,
    );
    square(
        0x1a3ffb03c80000000nat,
        0x2866b99f4c7655ccf403db6aefc4a1c8a48cde172856e6d7b688f128db54f8b3int,
        0x5fa79b0552345bb8cf2232d4b5d8ac9975907559e66b1dd5efe5f7e65e2ac217int,
    );
    square(
        0x347ff607900000000nat,
        0x5fa79b0552345bb8cf2232d4b5d8ac9975907559e66b1dd5efe5f7e65e2ac217int,
        0x5d814cfa31a464011b0cbd3f064a976b80298b117327fba4d7ca3c662eeb4dfdint,
    );
    product(
        0x68ffec0f200000000nat,
        0x5d814cfa31a464011b0cbd3f064a976b80298b117327fba4d7ca3c662eeb4dfdint,
        0x6ea3680000000nat,
        0x5f3f350eebf054767bed8599431d04f37562c10a2bc834fcf996b7109718faaeint,
        0x392267eab4666c4eab1ff3be09d243663c9f59d8fc6b5e47b34c492c3d62119aint,
    );
    square(
        0x69005ab2880000000nat,
        0x392267eab4666c4eab1ff3be09d243663c9f59d8fc6b5e47b34c492c3d62119aint,
        0x43824a907f60a06c68981632d0e94a5c6d564bf1ac3c8a586b22ccc8aaf6c83cint,
    );
    square(
        0xd200b565100000000nat,
        0x43824a907f60a06c68981632d0e94a5c6d564bf1ac3c8a586b22ccc8aaf6c83cint,
        0x113dff28c09000a99f16be514365286bd3417d2f8accbbfc682a368521a6807int,
    );
    product(
        0x1a4016aca200000000nat,
        0x113dff28c09000a99f16be514365286bd3417d2f8accbbfc682a368521a6807int,
        0x6ea3680000000nat,
        0x5f3f350eebf054767bed8599431d04f37562c10a2bc834fcf996b7109718faaeint,
        0x14ed1516afa77b36900bd9c7ab79cfa3f16e5bbb9a1f6ef07eca211f7cab5d9dint,
    );
    square(
        0x1a401d96d880000000nat,
        0x14ed1516afa77b36900bd9c7ab79cfa3f16e5bbb9a1f6ef07eca211f7cab5d9dint,
        0x2be608b8533c64784a7db808c2e17137212e599fe465a72eae737b0ff8c36fc9int,
    );
    square(
        0x34803b2db100000000nat,
        0x2be608b8533c64784a7db808c2e17137212e599fe465a72eae737b0ff8c36fc9int,
        0x736772478de4cb16fd1f041693ad63c73c53b4e33fd2f2365ef41df5a16f8a96int,
    );
    product(
        0x6900765b6200000000nat,
        0x736772478de4cb16fd1f041693ad63c73c53b4e33fd2f2365ef41df5a16f8a96int,
        0x6ea3680000000nat,
        0x5f3f350eebf054767bed8599431d04f37562c10a2bc834fcf996b7109718faaeint,
        0x16da2253c979d4be7dcbba713e43fdb0e432dcc91987c968133e6643ce4e8baint,
    );
    square(
        0x69007d459880000000nat,
        0x16da2253c979d4be7dcbba713e43fdb0e432dcc91987c968133e6643ce4e8baint,
        0x148af9eaef7405e8534db88bf6f30234f0ecfdfec3b22c6e733876edbd11c2b7int,
    );
    square(
        0xd200fa8b3100000000nat,
        0x148af9eaef7405e8534db88bf6f30234f0ecfdfec3b22c6e733876edbd11c2b7int,
        0x5bd32ea6d3534f5bd0b0921e11ae71305df8ccf947885e60a97995e5dad1b498int,
    );
    product(
        0x1a401f5166200000000nat,
        0x5bd32ea6d3534f5bd0b0921e11ae71305df8ccf947885e60a97995e5dad1b498int,
        0x6ea3680000000nat,
        0x5f3f350eebf054767bed8599431d04f37562c10a2bc834fcf996b7109718faaeint,
        0x899004e9e72b82c41fcc1447c61224f38fdf84c4f606512b416df9ccee2c9a8int,
    );
    square(
        0x1a401fc009880000000nat,
        0x899004e9e72b82c41fcc1447c61224f38fdf84c4f606512b416df9ccee2c9a8int,
        0x2ea3a22a702217273db5928768d635163c0923de9576ac2fd15dcc48337e7aecint,
    );
    product(
        0x34803f8013100000000nat,
        0x2ea3a22a702217273db5928768d635163c0923de9576ac2fd15dcc48337e7aecint,
        0x6ea3680000000nat,
        0x5f3f350eebf054767bed8599431d04f37562c10a2bc834fcf996b7109718faaeint,
        0x2b12488bdeebc8cad6eaa2c7ebe6b5e8d4924db6c3a7321fce797bb3434f7f40int,
    );
    square(
        0x34803feeb6780000000nat,
        0x2b12488bdeebc8cad6eaa2c7ebe6b5e8d4924db6c3a7321fce797bb3434f7f40int,
        0x2756873b78b8f80515a1412605579af38b44ec9e55fc622413a0cc4c0dfe1b93int,
    );
    square(
        0x69007fdd6cf00000000nat,
        0x2756873b78b8f80515a1412605579af38b44ec9e55fc622413a0cc4c0dfe1b93int,
        0x3484ced4437f89c450bff7749ad47b0a23a18b0e9cba5f336b17cfbe437c51e4int,
    );
    square(
        0xd200ffbad9e00000000nat,
        0x3484ced4437f89c450bff7749ad47b0a23a18b0e9cba5f336b17cfbe437c51e4int,
        0x6ed5a35c818af05c914f8eae61b7cb1de30cc04363005ec579e48bdf44a8ac84int,
    );
    product(
        0x1a401ff75b3c00000000nat,
        0x6ed5a35c818af05c914f8eae61b7cb1de30cc04363005ec579e48bdf44a8ac84int,
        0x6ea3680000000nat,
        0x5f3f350eebf054767bed8599431d04f37562c10a2bc834fcf996b7109718faaeint,
        0x505ba468b9e505e01dd877d27da67a0d42046263e3ff6d16f184003e56c61674int,
    );
    square(
        0x1a401ffe457280000000nat,
        0x505ba468b9e505e01dd877d27da67a0d42046263e3ff6d16f184003e56c61674int,
        0x4c9c2925545c2cd3cb61f5e8b10af47bde63d6e797f0eb26ef6dd2a8e4f521c6int,
    );
    square(
        0x34803ffc8ae500000000nat,
        0x4c9c2925545c2cd3cb61f5e8b10af47bde63d6e797f0eb26ef6dd2a8e4f521c6int,
        0x656d46610dd6fb1323ac38b86bef86a61f461d18253021903e4907c7c7c9662aint,
    );
    product(
        0x69007ff915ca00000000nat,
        0x656d46610dd6fb1323ac38b86bef86a61f461d18253021903e4907c7c7c9662aint,
        0x6ea3680000000nat,
        0x5f3f350eebf054767bed8599431d04f37562c10a2bc834fcf996b7109718faaeint,
        0xd75edce4bcd0ca4b2623aa885c8ca0805d5eebaa6b181167df0e01885459b99int,
    );
}

/// On to the power for `z^2` over `2` and 254760293.
proof fn lemma_power_4()
    requires
        power_leaves(
            0x69008000000080000000nat,
            0xd75edce4bcd0ca4b2623aa885c8ca0805d5eebaa6b181167df0e01885459b99int,
        ),
    ensures
        power_leaves(
            0x5ac279f368006ea3680000000nat,
            0x27538ec962cc4ca25043501635a707c5b2805e5124ef9c62074f3910d340bfdaint,
        ),
{
    square(
        0x69008000000080000000nat,
        0xd75edce4bcd0ca4b2623aa885c8ca0805d5eebaa6b181167df0e01885459b99int,
        0x609dfc52cef06ea1f32988522de990e802cfd18ab8dc733783d34a6cb4cd7559int,
    );
    product(
        0xd2010000000100000000nat,
        0x609dfc52cef06ea1f32988522de990e802cfd18ab8dc733783d34a6cb4cd7559int,
        0x69008000000080000000nat,
        0xd75edce4bcd0ca4b2623aa885c8ca0805d5eebaa6b181167df0e01885459b99int,
        0x5e8fdcfea69b9e67acac7b72e8d66b0b6ed18f385965cbb1ffe938d26c16a79aint,
    );
    square(
        0x13b018000000180000000nat,
        0x5e8fdcfea69b9e67acac7b72e8d66b0b6ed18f385965cbb1ffe938d26c16a79aint,
        0x67d001fe4c4d59adc6cf2deac653fd6a5ec1fe5ec0a667763fcde021c6aeb4fbint,
    );
    square(
        0x276030000000300000000nat,
        0x67d001fe4c4d59adc6cf2deac653fd6a5ec1fe5ec0a667763fcde021c6aeb4fbint,
        0xf245a4a91e572f3ec56c9863f8f6aab466c5a51ffd6747994c2df53a154ce6int,
    );
    product(
        0x4ec060000000600000000nat,
        0xf245a4a91e572f3ec56c9863f8f6aab466c5a51ffd6747994c2df53a154ce6int,
        0x69008000000080000000nat,
        0xd75edce4bcd0ca4b2623aa885c8ca0805d5eebaa6b181167df0e01885459b99int,
        0x1174b37a371dff4421d547069c1c30a8fc17919d254a300803d7836e5b76be6bint,
    );
    square(
        0x555068000000680000000nat,
        0x1174b37a371dff4421d547069c1c30a8fc17919d254a300803d7836e5b76be6bint,
        0x4a0f96848dc32159a8f5f027abbb3169e88b2ad4c6aa5d3ceaf0b71b3dcd94c5int,
    );
    product(
        0xaaa0d0000000d00000000nat,
        0x4a0f96848dc32159a8f5f027abbb3169e88b2ad4c6aa5d3ceaf0b71b3dcd94c5int,
        0x69008000000080000000nat,
        0xd75edce4bcd0ca4b2623aa885c8ca0805d5eebaa6b181167df0e01885459b99int,
        0x30d50d6d4031ec6c39c1a9dbba16701baec1f9108a9bd670583ad037b2d8ef7dint,
    );
    square(
        0xb130d8000000d80000000nat,
        0x30d50d6d4031ec6c39c1a9dbba16701baec1f9108a9bd670583ad037b2d8ef7dint,
        0x6935e9310db20ec59223eb6dfc4e26f6efdfb9f553d43526162b1faf926c5cd3int,
    );
    product(
        0x16261b0000001b00000000nat,
        0x6935e9310db20ec59223eb6dfc4e26f6efdfb9f553d43526162b1faf926c5cd3int,
        0x69008000000080000000nat,
        0xd75edce4bcd0ca4b2623aa885c8ca0805d5eebaa6b181167df0e01885459b99int,
        0x25053c0dc3b1a116fbf4b570dc80cfe5d2630b77281a5a6634ae899885cfc8eaint,
    );
    square(
        0x168f1b8000001b80000000nat,
        0x25053c0dc3b1a116fbf4b570dc80cfe5d2630b77281a5a6634ae899885cfc8eaint,
        0x739503214be982725595d67d050836badbc34ce042fb1249ad3f18fd5ad6cf4int,
    );
    square(
        0x2d1e370000003700000000nat,
        0x739503214be982725595d67d050836badbc34ce042fb1249ad3f18fd5ad6cf4int,
        0x1d49f0753750af08036f8a4a7be586d26437bc524334ee773cf90c8061eab2c6int,
    );
    product(
        0x5a3c6e0000006e00000000nat,
        0x1d49f0753750af08036f8a4a7be586d26437bc524334ee773cf90c8061eab2c6int,
        0x69008000000080000000nat,
        0xd75edce4bcd0ca4b2623aa885c8ca0805d5eebaa6b181167df0e01885459b99int,
        0x4a8e5862ef3b065e2439c1ecec2d05d6ab2efc4b35dbda767355644c9b9ec49eint,
    );
    square(
        0x5aa56e8000006e80000000nat,
        0x4a8e5862ef3b065e2439c1ecec2d05d6ab2efc4b35dbda767355644c9b9ec49eint,
        0x1d9b268e1bf502d3e9af7012fc6318826084c0855896861d0c6a761a44d19edfint,
    );
    square(
        0xb54add000000dd00000000nat,
        0x1d9b268e1bf502d3e9af7012fc6318826084c0855896861d0c6a761a44d19edfint,
        0x46cbf639318286dee52bd12601b5c247a18f1775c07b1c9af96e39308d8dd775int,
    );
    product(
        0x16a95ba000001ba00000000nat,
        0x46cbf639318286dee52bd12601b5c247a18f1775c07b1c9af96e39308d8dd775int,
        0x69008000000080000000nat,
        0xd75edce4bcd0ca4b2623aa885c8ca0805d5eebaa6b181167df0e01885459b99int,
        0x5487e1f4fddf68e783cf7caefa0c2f943c860813bda4bf4049ac2f05291abaaaint,
    );
    square(
        0x16afeba800001ba80000000nat,
        0x5487e1f4fddf68e783cf7caefa0c2f943c860813bda4bf4049ac2f05291abaaaint,
        0x311bcd2c11a69b799315a05ba128a7105e306a0d513a4c8711d346dd251d091int,
    );
    square(
        0x2d5fd750000037500000000nat,
        0x311bcd2c11a69b799315a05ba128a7105e306a0d513a4c8711d346dd251d091int,
        0xf10053f94fb7170fe5fadc9609d97f166a35e0b2331db7965326641709a64c6int,
    );
    square(
        0x5abfaea000006ea00000000nat,
        0xf10053f94fb7170fe5fadc9609d97f166a35e0b2331db7965326641709a64c6int,
        0x11d673cf6f66583cfedaddf9bbda0c0dc3cc7bc7954cad1dd574fdd736114a2int,
    );
    square(
        0xb57f5d400000dd400000000nat,
        0x11d673cf6f66583cfedaddf9bbda0c0dc3cc7bc7954cad1dd574fdd736114a2int,
        0x602dcff25e01f32c5805abc2afecbc85254e6c58d01f1133e65c5b8e8f4d5f88int,
    );
    product(
        0x16afeba800001ba800000000nat,
        0x602dcff25e01f32c5805abc2afecbc85254e6c58d01f1133e65c5b8e8f4d5f88int,
        0x69008000000080000000nat,
        0xd75edce4bcd0ca4b2623aa885c8ca0805d5eebaa6b181167df0e01885459b99int,
        0x11303b9e7eb6fcc605846c7d37178c2e4d9caa04e8f8f8d0cfb315079e90e0d0int,
    );
    square(
        0x16b054a880001ba880000000nat,
        0x11303b9e7eb6fcc605846c7d37178c2e4d9caa04e8f8f8d0cfb315079e90e0d0int,
        0x2d40e81a0bd753515fe7b2e00b6d7fdb6d48639821702efd7378fd2c979a14c1int,
    );
    product(
        0x2d60a9510000375100000000nat,
        0x2d40e81a0bd753515fe7b2e00b6d7fdb6d48639821702efd7378fd2c979a14c1int,
        0x69008000000080000000nat,
        0xd75edce4bcd0ca4b2623aa885c8ca0805d5eebaa6b181167df0e01885459b99int,
        0x6a826ad092705fb27f849d6f871ba025114320828eb21c48337b043cb97567efint,
    );
    square(
        0x2d6112518000375180000000nat,
        0x6a826ad092705fb27f849d6f871ba025114320828eb21c48337b043cb97567efint,
        0x2fdcaea462f1fef9d5ede4f4ac648dbcd3f97c7e754a016066772feda3775af5int,
    );
    square(
        0x5ac224a300006ea300000000nat,
        0x2fdcaea462f1fef9d5ede4f4ac648dbcd3f97c7e754a016066772feda3775af5int,
        0x718d2bb9b53c9256b24cc7fc2496f4ba10246bfbdb8b448652f504301d73db58int,
    );
    product(
        0xb58449460000dd4600000000nat,
        0x718d2bb9b53c9256b24cc7fc2496f4ba10246bfbdb8b448652f504301d73db58int,
        0x69008000000080000000nat,
        0xd75edce4bcd0ca4b2623aa885c8ca0805d5eebaa6b181167df0e01885459b99int,
        0x18f3a2e2fcb7fc633f85a50c8d0c5443f0b68fed4be4dbececd76a5312c4263int,
    );
    square(
        0xb584b2468000dd4680000000nat,
        0x18f3a2e2fcb7fc633f85a50c8d0c5443f0b68fed4be4dbececd76a5312c4263int,
        0x688f0709a33ce0dba7be6368b2f1ce560d46c992ca47d911d9115800200f289bint,
    );
    product(
        0x16b09648d0001ba8d00000000nat,
        0x688f0709a33ce0dba7be6368b2f1ce560d46c992ca47d911d9115800200f289bint,
        0x69008000000080000000nat,
        0xd75edce4bcd0ca4b2623aa885c8ca0805d5eebaa6b181167df0e01885459b99int,
        0x322d1761f24ecde4c87f9e0c0ed1837a1cfea3bd440116c5585d09d1b3622574int,
    );
    square(
        0x16b09cd8d8001ba8d80000000nat,
        0x322d1761f24ecde4c87f9e0c0ed1837a1cfea3bd440116c5585d09d1b3622574int,
        0x629b633e928f5519bc23ad75e31aa6e5df64480ca01a8453b861b443233c3bccint,
    );
    square(
        0x2d6139b1b0003751b00000000nat,
        0x629b633e928f5519bc23ad75e31aa6e5df64480ca01a8453b861b443233c3bccint,
        0x2b925997f00bedc6f4e8da0a8ede31750d79b5033e60a7e61a4240f8a54b010eint,
    );
    product(
        0x5ac2736360006ea3600000000nat,
        0x2b925997f00bedc6f4e8da0a8ede31750d79b5033e60a7e61a4240f8a54b010eint,
        0x69008000000080000000nat,
        0xd75edce4bcd0ca4b2623aa885c8ca0805d5eebaa6b181167df0e01885459b99int,
        0x27538ec962cc4ca25043501635a707c5b2805e5124ef9c62074f3910d340bfdaint,
    );
}

/// On to the power for `z^2` over `2` and 906349.
proof fn lemma_power_5()
    requires
        power_leaves(
            0x69008000000080000000nat,
            0xd75edce4bcd0ca4b2623aa885c8ca0805d5eebaa6b181167df0e01885459b99int,
        ),
    ensures
        power_leaves(
            0x63a719e17b28797aab280000000nat,
            0x31136c0095ec63e5334ccd522840937650b4ae6fbcbfb6dff42cfb793a12bfc9int,
        ),
{
    square(
        0x69008000000080000000nat,
        0xd75edce4bcd0ca4b2623aa885c8ca0805d5eebaa6b181167df0e01885459b99int,
        0x609dfc52cef06ea1f32988522de990e802cfd18ab8dc733783d34a6cb4cd7559int,
    );
    product(
        0xd2010000000100000000nat,
        0x609dfc52cef06ea1f32988522de990e802cfd18ab8dc733783d34a6cb4cd7559int,
        0x69008000000080000000nat,
        0xd75edce4bcd0ca4b2623aa885c8ca0805d5eebaa6b181167df0e01885459b99int,
        0x5e8fdcfea69b9e67acac7b72e8d66b0b6ed18f385965cbb1ffe938d26c16a79aint,
    );
    square(
        0x13b018000000180000000nat,
        0x5e8fdcfea69b9e67acac7b72e8d66b0b6ed18f385965cbb1ffe938d26c16a79aint,
        0x67d001fe4c4d59adc6cf2deac653fd6a5ec1fe5ec0a667763fcde021c6aeb4fbint,
    );
    product(
        0x276030000000300000000nat,
        0x67d001fe4c4d59adc6cf2deac653fd6a5ec1fe5ec0a667763fcde021c6aeb4fbint,
        0x69008000000080000000nat,
        0xd75edce4bcd0ca4b2623aa885c8ca0805d5eebaa6b181167df0e01885459b99int,
        0xb5fb6a104f46256b01e2924c26848ac48ba2b506e1ce1901dd7b51c876b1fint,
    );
    square(
        0x2df038000000380000000nat,
        0xb5fb6a104f46256b01e2924c26848ac48ba2b506e1ce1901dd7b51c876b1fint,
        0x5fedcfda5c34a164c9ec247f43f9caf778b127ed7bab4cbe6f015e900049bf17int,
    );
    product(
        0x5be070000000700000000nat,
        0x5fedcfda5c34a164c9ec247f43f9caf778b127ed7bab4cbe6f015e900049bf17int,
        0x69008000000080000000nat,
        0xd75edce4bcd0ca4b2623aa885c8ca0805d5eebaa6b181167df0e01885459b99int,
        0x527cb59192ee00416c559c070fd34dc0fbb7e04a2f1b7900c661a23bbea1ea4dint,
    );
    square(
        0x627078000000780000000nat,
        0x527cb59192ee00416c559c070fd34dc0fbb7e04a2f1b7900c661a23bbea1ea4dint,
        0x617ce4d7354ba4c35dbd9c5451c90b87f89b119efbcebe1aca2c5d720d8fde25int,
    );
    square(
        0xc4e0f0000000f00000000nat,
        0x617ce4d7354ba4c35dbd9c5451c90b87f89b119efbcebe1aca2c5d720d8fde25int,
        0x59e77d609c3f5beae80976feb34d27863fcaa68d3a3020fcc1eed0735d28a9baint,
    );
    square(
        0x189c1e0000001e00000000nat,
        0x59e77d609c3f5beae80976feb34d27863fcaa68d3a3020fcc1eed0735d28a9baint,
        0x4f31f58730b57d81e25f06d0457c261c2c9c4952baba2337e9d15a547169609fint,
    );
    product(
        0x31383c0000003c00000000nat,
        0x4f31f58730b57d81e25f06d0457c261c2c9c4952baba2337e9d15a547169609fint,
        0x69008000000080000000nat,
        0xd75edce4bcd0ca4b2623aa885c8ca0805d5eebaa6b181167df0e01885459b99int,
        0x6f09f61c6bdd79eae4fa08636544a02828783ca7590c1d6c4447e73de6772fd7int,
    );
    square(
        0x31a13c8000003c80000000nat,
        0x6f09f61c6bdd79eae4fa08636544a02828783ca7590c1d6c4447e73de6772fd7int,
        0xdf40657559ec758d322a107e894c92813f00610e8eadd939b5d950f10f33881int,
    );
    square(
        0x6342790000007900000000nat,
        0xdf40657559ec758d322a107e894c92813f00610e8eadd939b5d950f10f33881int,
        0x4ba06c030cb4c9921f9721146abc74a1db062ab6f0938cc310d5a50fedaa6eb9int,
    );
    product(
        0xc684f2000000f200000000nat,
        0x4ba06c030cb4c9921f9721146abc74a1db062ab6f0938cc310d5a50fedaa6eb9int,
        0x69008000000080000000nat,
        0xd75edce4bcd0ca4b2623aa885c8ca0805d5eebaa6b181167df0e01885459b99int,
        0x2fcd096c1ebcc9dee6097075764cb8c181cd653ce3d3834fc512a8d54af3892eint,
    );
    square(
        0xc6edf2800000f280000000nat,
        0x2fcd096c1ebcc9dee6097075764cb8c181cd653ce3d3834fc512a8d54af3892eint,
        0x4a89d8294167398954ecd40d947d720809a61bdd9706c291eef3473b6446fc34int,
    );
    product(
        0x18ddbe5000001e500000000nat,
        0x4a89d8294167398954ecd40d947d720809a61bdd9706c291eef3473b6446fc34int,
        0x69008000000080000000nat,
        0xd75edce4bcd0ca4b2623aa885c8ca0805d5eebaa6b181167df0e01885459b99int,
        0x2a51ccb9f2c5f0c5a339cc81daa37cc8f4aa6659b1cdb76b109e2ffe2670f9d1int,
    );
    square(
        0x18e44e5800001e580000000nat,
        0x2a51ccb9f2c5f0c5a339cc81daa37cc8f4aa6659b1cdb76b109e2ffe2670f9d1int,
        0x3cd1b4fd93154794a9dcecf38963abdcac826d55093ccdfc089d1e2c9d3ce1a6int,
    );
    product(
        0x31c89cb000003cb00000000nat,
        0x3cd1b4fd93154794a9dcecf38963abdcac826d55093ccdfc089d1e2c9d3ce1a6int,
        0x69008000000080000000nat,
        0xd75edce4bcd0ca4b2623aa885c8ca0805d5eebaa6b181167df0e01885459b99int,
        0x109688bc13be8a7a1f915b7bafdd25bde5fe532a469b7223468861488795d924int,
    );
    square(
        0x31cf2cb800003cb80000000nat,
        0x109688bc13be8a7a1f915b7bafdd25bde5fe532a469b7223468861488795d924int,
        0x735a6be66b5c92441ce15a915822e55ef87dc2ae7f70d3098b7107e387c7f82cint,
    );
    product(
        0x639e5970000079700000000nat,
        0x735a6be66b5c92441ce15a915822e55ef87dc2ae7f70d3098b7107e387c7f82cint,
        0x69008000000080000000nat,
        0xd75edce4bcd0ca4b2623aa885c8ca0805d5eebaa6b181167df0e01885459b99int,
        0x19c0dc3eed8f53c4fac17cc2ceac9afa7e5f4a06d6f2feb123855fef779f1402int,
    );
    square(
        0x63a4e978000079780000000nat,
        0x19c0dc3eed8f53c4fac17cc2ceac9afa7e5f4a06d6f2feb123855fef779f1402int,
        0x5ef3dfb8f8d4079901edb9c0fd71fa1421066123c57d7b8e5b1410888778cc4dint,
    );
    square(
        0xc749d2f00000f2f00000000nat,
        0x5ef3dfb8f8d4079901edb9c0fd71fa1421066123c57d7b8e5b1410888778cc4dint,
        0x12e2ed2d0b08afa97a76f2d437b8b450e9836c681afb75e6ccafbe89d4dd4b22int,
    );
    product(
        0x18e93a5e00001e5e00000000nat,
        0x12e2ed2d0b08afa97a76f2d437b8b450e9836c681afb75e6ccafbe89d4dd4b22int,
        0x69008000000080000000nat,
        0xd75edce4bcd0ca4b2623aa885c8ca0805d5eebaa6b181167df0e01885459b99int,
        0x2470d7cb86f6c83f8cbd8c5aba9177ea249ae10d1cc69248075b42aba03215b9int,
    );
    square(
        0x18e9a35e80001e5e80000000nat,
        0x2470d7cb86f6c83f8cbd8c5aba9177ea249ae10d1cc69248075b42aba03215b9int,
        0x421af91cf6b15a60e2e720e50f0639ffc1c436a422239bec48d526a8bc4c0045int,
    );
    square(
        0x31d346bd00003cbd00000000nat,
        0x421af91cf6b15a60e2e720e50f0639ffc1c436a422239bec48d526a8bc4c0045int,
        0x5f9d795513ccc5f59c154860e2ac0ebda5d4a9f337895e02c8320eddf1b518c0int,
    );
    product(
        0x63a68d7a0000797a00000000nat,
        0x5f9d795513ccc5f59c154860e2ac0ebda5d4a9f337895e02c8320eddf1b518c0int,
        0x69008000000080000000nat,
        0xd75edce4bcd0ca4b2623aa885c8ca0805d5eebaa6b181167df0e01885459b99int,
        0x3ee2863f483aba844a259e429d4b9115a4ed81eb236c3f7c82df2106cd69ec35int,
    );
    square(
        0x63a6f67a8000797a80000000nat,
        0x3ee2863f483aba844a259e429d4b9115a4ed81eb236c3f7c82df2106cd69ec35int,
        0x677eb1560cb7a4c2a38663c11a50a3bf8c0c8940da3466f8eb45269e6d25e83int,
    );
    square(
        0xc74decf50000f2f500000000nat,
        0x677eb1560cb7a4c2a38663c11a50a3bf8c0c8940da3466f8eb45269e6d25e83int,
        0x56568894b7cf5d74866c72a10e40db8aebc1061957e9bee46f487daf73669143int,
    );
    product(
        0x18e9bd9ea0001e5ea00000000nat,
        0x56568894b7cf5d74866c72a10e40db8aebc1061957e9bee46f487daf73669143int,
        0x69008000000080000000nat,
        0xd75edce4bcd0ca4b2623aa885c8ca0805d5eebaa6b181167df0e01885459b99int,
        0x5419b30fbdde98f8474ecff12c99ab0d93aaa7ab24fb0631622fe55a6b0812b3int,
    );
    square(
        0x18e9c42ea8001e5ea80000000nat,
        0x5419b30fbdde98f8474ecff12c99ab0d93aaa7ab24fb0631622fe55a6b0812b3int,
        0x25ba95601d738318cb0765c137cfe3d49d04ce345d560b9c2e0f5d57db28382dint,
    );
    square(
        0x31d3885d50003cbd500000000nat,
        0x25ba95601d738318cb0765c137cfe3d49d04ce345d560b9c2e0f5d57db28382dint,
        0x2f371c61f6c7728cb97a7aafc917a8c75b76491dd847e8061c4e895fb0825013int,
    );
    product(
        0x63a710baa000797aa00000000nat,
        0x2f371c61f6c7728cb97a7aafc917a8c75b76491dd847e8061c4e895fb0825013int,
        0x69008000000080000000nat,
        0xd75edce4bcd0ca4b2623aa885c8ca0805d5eebaa6b181167df0e01885459b99int,
        0x2a7593da581a69ac3066f1f4d02703282b763da7710ee527cd6ae1bea659c760int,
    );
    square(
        0x63a7174aa800797aa80000000nat,
        0x2a7593da581a69ac3066f1f4d02703282b763da7710ee527cd6ae1bea659c760int,
        0x62c54078808ee0c37bfbfc6f5b700db39e481555681834a3213cf7828307d20bint,
    );
    square(
        0xc74e2e955000f2f5500000000nat,
        0x62c54078808ee0c37bfbfc6f5b700db39e481555681834a3213cf7828307d20bint,
        0x63c3b415d73ce4c7a233e1b68f7bcbe8bc9437dc46a0371d7d4e6033f7b2ed72int,
    );
    product(
        0x18e9c5d2aa001e5eaa00000000nat,
        0x63c3b415d73ce4c7a233e1b68f7bcbe8bc9437dc46a0371d7d4e6033f7b2ed72int,
        0x69008000000080000000nat,
        0xd75edce4bcd0ca4b2623aa885c8ca0805d5eebaa6b181167df0e01885459b99int,
        0x1699d2432167720666c6b11a773a51a1839cf78db2c18ce718bc7d8e3a5aa9b3int,
    );
    square(
        0x18e9c63baa801e5eaa80000000nat,
        0x1699d2432167720666c6b11a773a51a1839cf78db2c18ce718bc7d8e3a5aa9b3int,
        0x584fa65324135c8de6ca9dbf17a4b3d63c58c65a3671e5d597bfe40088e686e5int,
    );
    product(
        0x31d38c7755003cbd5500000000nat,
        0x584fa65324135c8de6ca9dbf17a4b3d63c58c65a3671e5d597bfe40088e686e5int,
        0x69008000000080000000nat,
        0xd75edce4bcd0ca4b2623aa885c8ca0805d5eebaa6b181167df0e01885459b99int,
        0x1ca65adf9cc63471672230f425163a8f21f0082552f9f6fc6c2ee653f6f9744aint,
    );
    square(
        0x31d38ce055803cbd5580000000nat,
        0x1ca65adf9cc63471672230f425163a8f21f0082552f9f6fc6c2ee653f6f9744aint,
        0xd4f198d69085dbac6905653a60f71480ed32c60ebc50f3f1258c5ab89859d1dint,
    );
    square(
        0x63a719c0ab00797aab00000000nat,
        0xd4f198d69085dbac6905653a60f71480ed32c60ebc50f3f1258c5ab89859d1dint,
        0x34cbdcebf40a08d1c03fa7f667c95c76f1378fe3969c5b5db649e616149fc140int,
    );
    square(
        0xc74e33815600f2f55600000000nat,
        0x34cbdcebf40a08d1c03fa7f667c95c76f1378fe3969c5b5db649e616149fc140int,
        0x3d485179f2c4a0daef66c5071e75e567f006186db34960e8b1ec7a44dc43742fint,
    );
    product(
        0x18e9c6702ac01e5eaac00000000nat,
        0x3d485179f2c4a0daef66c5071e75e567f006186db34960e8b1ec7a44dc43742fint,
        0x69008000000080000000nat,
        0xd75edce4bcd0ca4b2623aa885c8ca0805d5eebaa6b181167df0e01885459b99int,
        0x6c44373dde03434907b8ebc94019cd1c84e543cdc3056e9571601a2a35fb796cint,
    );
    square(
        0x18e9c676bac81e5eaac80000000nat,
        0x6c44373dde03434907b8ebc94019cd1c84e543cdc3056e9571601a2a35fb796cint,
        0x46debc1a57fa3c2aba35308dc7c229007f5542b234187ced7577f6f5cbb43f59int,
    );
    square(
        0x31d38ced75903cbd55900000000nat,
        0x46debc1a57fa3c2aba35308dc7c229007f5542b234187ced7577f6f5cbb43f59int,
        0x38411f3428b4e34e5333fa2e8cc48a6a30a398df9cf2ddcd6ff398a40b33aad4int,
    );
    product(
        0x63a719daeb20797aab200000000nat,
        0x38411f3428b4e34e5333fa2e8cc48a6a30a398df9cf2ddcd6ff398a40b33aad4int,
        0x69008000000080000000nat,
        0xd75edce4bcd0ca4b2623aa885c8ca0805d5eebaa6b181167df0e01885459b99int,
        0x31136c0095ec63e5334ccd522840937650b4ae6fbcbfb6dff42cfb793a12bfc9int,
    );
}

/// On to the power for `z^2` over `2`.
proof fn lemma_power_6()
    requires
        power_leaves(
            0x5ac279f368006ea3680000000nat,
            0x27538ec962cc4ca25043501635a707c5b2805e5124ef9c62074f3910d340bfdaint,
        ),
    ensures
        power_leaves(
            0x5622d2008000d2010000000080000000nat,
            0x73eda753299d7d483339d80809a1d80553bda402fffe5bfeffffffff00000000int,
        ),
{
    square(
        0x5ac279f368006ea3680000000nat,
        0x27538ec962cc4ca25043501635a707c5b2805e5124ef9c62074f3910d340bfdaint,
        0x6066d68091422459ea719b5c257f54a3a5509ba90dd017135d4facfcccdf73d6int,
    );
    product(
        0xb584f3e6d000dd46d00000000nat,
        0x6066d68091422459ea719b5c257f54a3a5509ba90dd017135d4facfcccdf73d6int,
        0x5ac279f368006ea3680000000nat,
        0x27538ec962cc4ca25043501635a707c5b2805e5124ef9c62074f3910d340bfdaint,
        0x24fefa9588d8f2860d89bda56823e0a4d4de83874bd5de98ba69b63d3cc1c3eaint,
    );
    square(
        0x110476dda38014bea380000000nat,
        0x24fefa9588d8f2860d89bda56823e0a4d4de83874bd5de98ba69b63d3cc1c3eaint,
        0x3d7f35bab1e56cb58fc63ac02c2ffdae9b0990b5bf7dc9e3fd727c420d7508b9int,
    );
    product(
        0x2208edbb4700297d4700000000nat,
        0x3d7f35bab1e56cb58fc63ac02c2ffdae9b0990b5bf7dc9e3fd727c420d7508b9int,
        0x5ac279f368006ea3680000000nat,
        0x27538ec962cc4ca25043501635a707c5b2805e5124ef9c62074f3910d340bfdaint,
        0x358b77855708bb3fa64496f464a722c1ce9fd2e5a9e78958b029edbda18090c3int,
    );
    square(
        0x27b5155a7d8030677d80000000nat,
        0x358b77855708bb3fa64496f464a722c1ce9fd2e5a9e78958b029edbda18090c3int,
        0x730ceb0cb23f255b8ed565dfb78f2435bcafc4557552f82634caead5c3581cb2int,
    );
    product(
        0x4f6a2ab4fb0060cefb00000000nat,
        0x730ceb0cb23f255b8ed565dfb78f2435bcafc4557552f82634caead5c3581cb2int,
        0x5ac279f368006ea3680000000nat,
        0x27538ec962cc4ca25043501635a707c5b2805e5124ef9c62074f3910d340bfdaint,
        0x632c48c813b81b648df79f0e65edf35989f319f8c6ee411829233ad55fb39424int,
    );
    square(
        0x55165254318067b93180000000nat,
        0x632c48c813b81b648df79f0e65edf35989f319f8c6ee411829233ad55fb39424int,
        0x4de2676f973bd589c74310676cc2238bb279ebe6c2742925319cdb01362507e2int,
    );
    square(
        0xaa2ca4a86300cf726300000000nat,
        0x4de2676f973bd589c74310676cc2238bb279ebe6c2742925319cdb01362507e2int,
        0x425a16c20a426cd325e559373c982548c052fba5e52b0773d8ef73b5b1c630bfint,
    );
    square(
        0x154594950c6019ee4c600000000nat,
        0x425a16c20a426cd325e559373c982548c052fba5e52b0773d8ef73b5b1c630bfint,
        0xd401035752d220e20f4337b8c9b771518bb2febe9360a5ee16051514b097a1cint,
    );
    product(
        0x2a8b292a18c033dc98c00000000nat,
        0xd401035752d220e20f4337b8c9b771518bb2febe9360a5ee16051514b097a1cint,
        0x5ac279f368006ea3680000000nat,
        0x27538ec962cc4ca25043501635a707c5b2805e5124ef9c62074f3910d340bfdaint,
        0x5f14bd3c792aa45637ef83a03c75bc7bc869ebd8e0fa6be2d143346820b94091int,
    );
    square(
        0x2ae5eba40c28344b3c280000000nat,
        0x5f14bd3c792aa45637ef83a03c75bc7bc869ebd8e0fa6be2d143346820b94091int,
        0x425fa6e8f4cd05a675b5c32ddc1c5d75c74d52b6d9c6535da1ec46c8dde3bae3int,
    );
    square(
        0x55cbd7481850689678500000000nat,
        0x425fa6e8f4cd05a675b5c32ddc1c5d75c74d52b6d9c6535da1ec46c8dde3bae3int,
        0x36c78fcf9e85ea7e5314769441f2cb9a800641352d585eb9deda9abe58f4a2eint,
    );
    product(
        0xab97ae9030a0d12cf0a00000000nat,
        0x36c78fcf9e85ea7e5314769441f2cb9a800641352d585eb9deda9abe58f4a2eint,
        0x5ac279f368006ea3680000000nat,
        0x27538ec962cc4ca25043501635a707c5b2805e5124ef9c62074f3910d340bfdaint,
        0x12334c9de815f405b14ed6d9d6952a51945aebe91f73900c2e9ee04bbf9851a7int,
    );
    square(
        0xabf2710a2408d19b94080000000nat,
        0x12334c9de815f405b14ed6d9d6952a51945aebe91f73900c2e9ee04bbf9851a7int,
        0x43806fbb74bfc1d94fdc28f2be10d34a61316ed30ff44a0eee06839710188a25int,
    );
    product(
        0x157e4e2144811a33728100000000nat,
        0x43806fbb74bfc1d94fdc28f2be10d34a61316ed30ff44a0eee06839710188a25int,
        0x5ac279f368006ea3680000000nat,
        0x27538ec962cc4ca25043501635a707c5b2805e5124ef9c62074f3910d340bfdaint,
        0x5635516c82e1d82f594fe00d176d4bbbe79c8ee78f95e2b012038772a7697c86int,
    );
    square(
        0x1583fa48e3b79a3a5cb780000000nat,
        0x5635516c82e1d82f594fe00d176d4bbbe79c8ee78f95e2b012038772a7697c86int,
        0x1766cfd0818fa44a75357076a292257faa1dc362b0029e2c9fcb44489ba86715int,
    );
    product(
        0x2b07f491c76f3474b96f00000000nat,
        0x1766cfd0818fa44a75357076a292257faa1dc362b0029e2c9fcb44489ba86715int,
        0x5ac279f368006ea3680000000nat,
        0x27538ec962cc4ca25043501635a707c5b2805e5124ef9c62074f3910d340bfdaint,
        0x213d18063d2f458942fcc9753deca9e505fc4b02b638572fdf86c5550e309442int,
    );
    square(
        0x2b0da0b966a5b47ba3a580000000nat,
        0x213d18063d2f458942fcc9753deca9e505fc4b02b638572fdf86c5550e309442int,
        0x19f297421cfe35dd2382bbc44e2289c014767a2145992c9f10089c5ad8296533int,
    );
    product(
        0x561b4172cd4b68f7474b00000000nat,
        0x19f297421cfe35dd2382bbc44e2289c014767a2145992c9f10089c5ad8296533int,
        0x5ac279f368006ea3680000000nat,
        0x27538ec962cc4ca25043501635a707c5b2805e5124ef9c62074f3910d340bfdaint,
        0x4422bed0be58bccaaadd62c4f1175c19ea35bf5f47952923c163110c45b5b012int,
    );
    square(
        0x5620ed9a6c81e8fe318180000000nat,
        0x4422bed0be58bccaaadd62c4f1175c19ea35bf5f47952923c163110c45b5b012int,
        0x30b838ee7759b59aeed55e3eb09a156307538f58a6cc0b9573ce21b5f14d70fcint,
    );
    square(
        0xac41db34d903d1fc630300000000nat,
        0x30b838ee7759b59aeed55e3eb09a156307538f58a6cc0b9573ce21b5f14d70fcint,
        0x58666d22739ffc67a8c607afa559a0b0ec48837a1c8f2637bbc0c85b78068965int,
    );
    product(
        0x15883b669b207a3f8c60600000000nat,
        0x58666d22739ffc67a8c607afa559a0b0ec48837a1c8f2637bbc0c85b78068965int,
        0x5ac279f368006ea3680000000nat,
        0x27538ec962cc4ca25043501635a707c5b2805e5124ef9c62074f3910d340bfdaint,
        0x6f72ff2d448127b9173ea192a8451ca6ff4d49a163ee2a83897f0fa66517ff7cint,
    );
    square(
        0x158896291513e23ffb03c80000000nat,
        0x6f72ff2d448127b9173ea192a8451ca6ff4d49a163ee2a83897f0fa66517ff7cint,
        0x8635b00af2a977957507d0977ab81ea5a503d76bd207c37232ea13097e96241int,
    );
    square(
        0x2b112c522a27c47ff607900000000nat,
        0x8635b00af2a977957507d0977ab81ea5a503d76bd207c37232ea13097e96241int,
        0x1f69daf38f46b5087a8e4018557cea01247bea6970575007aec9b51e857c6c98int,
    );
    product(
        0x562258a4544f88ffec0f200000000nat,
        0x1f69daf38f46b5087a8e4018557cea01247bea6970575007aec9b51e857c6c98int,
        0x5ac279f368006ea3680000000nat,
        0x27538ec962cc4ca25043501635a707c5b2805e5124ef9c62074f3910d340bfdaint,
        0x3d052587278eadc0f977e5073e7fe287ace3a946a011e20908e0616b7f187d52int,
    );
    square(
        0x5622b366ce42f1005ab2880000000nat,
        0x3d052587278eadc0f977e5073e7fe287ace3a946a011e20908e0616b7f187d52int,
        0x3311bc7314050e5bd3bcfef9b9333c89bba4bd80c87820d8d668399e3ba61df9int,
    );
    square(
        0xac4566cd9c85e200b565100000000nat,
        0x3311bc7314050e5bd3bcfef9b9333c89bba4bd80c87820d8d668399e3ba61df9int,
        0x594edd64df95ca02bf87303bef1aefa9359d52786e6f8c25cc903566b6470f4cint,
    );
    product(
        0x1588acd9b390bc4016aca200000000nat,
        0x594edd64df95ca02bf87303bef1aefa9359d52786e6f8c25cc903566b6470f4cint,
        0x5ac279f368006ea3680000000nat,
        0x27538ec962cc4ca25043501635a707c5b2805e5124ef9c62074f3910d340bfdaint,
        0x121a96761b6f5bac6f6c19ac0470df1867fdada2e321b65fb38ab9bf6262e11fint,
    );
    square(
        0x1588b285db2ff2c01d96d880000000nat,
        0x121a96761b6f5bac6f6c19ac0470df1867fdada2e321b65fb38ab9bf6262e11fint,
        0x22a9251dc1ed4b9cf5e66b6fae12ff30405a7cbb46d46900b98fb2b8c4ae1253int,
    );
    square(
        0x2b11650bb65fe5803b2db100000000nat,
        0x22a9251dc1ed4b9cf5e66b6fae12ff30405a7cbb46d46900b98fb2b8c4ae1253int,
        0x147d78c7a50f43870fdf88823a8c0d740495b85bdf8403871cad6bfd9ef739b1int,
    );
    product(
        0x5622ca176cbfcb00765b6200000000nat,
        0x147d78c7a50f43870fdf88823a8c0d740495b85bdf8403871cad6bfd9ef739b1int,
        0x5ac279f368006ea3680000000nat,
        0x27538ec962cc4ca25043501635a707c5b2805e5124ef9c62074f3910d340bfdaint,
        0x4350782cef5c9ec8b0460baaed108195e72f2c2705d2ce71fe7cb5955b558b5aint,
    );
    square(
        0x5622cfc3945f01807d459880000000nat,
        0x4350782cef5c9ec8b0460baaed108195e72f2c2705d2ce71fe7cb5955b558b5aint,
        0xe3293876f56e2c1580952ef38395b2138be5a9c82891ba169acae018b61e808int,
    );
    square(
        0xac459f8728be0300fa8b3100000000nat,
        0xe3293876f56e2c1580952ef38395b2138be5a9c82891ba169acae018b61e808int,
        0x6b0c38ffbea80a9fdc6865abb880010e1bd7857f267c9ba1dd4b131913e9f91aint,
    );
    product(
        0x1588b3f0e517c0601f5166200000000nat,
        0x6b0c38ffbea80a9fdc6865abb880010e1bd7857f267c9ba1dd4b131913e9f91aint,
        0x5ac279f368006ea3680000000nat,
        0x27538ec962cc4ca25043501635a707c5b2805e5124ef9c62074f3910d340bfdaint,
        0x1b2073e27227e695cd3cb7e5f26fbdd128930769a786ed3d861014959e30ab3cint,
    );
    square(
        0x1588b44ba791b3c81fc009880000000nat,
        0x1b2073e27227e695cd3cb7e5f26fbdd128930769a786ed3d861014959e30ab3cint,
        0x6afc79424e067b3a4dd0f7ded262cbc337987307c5a59ce68b6242b3d9d5393eint,
    );
    product(
        0x2b1168974f2367903f8013100000000nat,
        0x6afc79424e067b3a4dd0f7ded262cbc337987307c5a59ce68b6242b3d9d5393eint,
        0x5ac279f368006ea3680000000nat,
        0x27538ec962cc4ca25043501635a707c5b2805e5124ef9c62074f3910d340bfdaint,
        0x49b9c3a97244347c7527b6bdfbe4c75cddae0c11109b4b5dec2281548d2d77fdint,
    );
    square(
        0x2b1168f2119d5af83feeb6780000000nat,
        0x49b9c3a97244347c7527b6bdfbe4c75cddae0c11109b4b5dec2281548d2d77fdint,
        0x5fde168aa36545f33fcfdbba0c460f51f0c7ced9db1e82efb076f0c857f694d2int,
    );
    square(
        0x5622d1e4233ab5f07fdd6cf00000000nat,
        0x5fde168aa36545f33fcfdbba0c460f51f0c7ced9db1e82efb076f0c857f694d2int,
        0x7069bb7fd5d6ea51ed51b1effb0587f106db99eec0b795d89638a97aca19fe55int,
    );
    square(
        0xac45a3c846756be0ffbad9e00000000nat,
        0x7069bb7fd5d6ea51ed51b1effb0587f106db99eec0b795d89638a97aca19fe55int,
        0x36daec67c58ee680eaa2439fba4a7d6b0ec62b886035d74498a5b3ccb158faafint,
    );
    product(
        0x1588b47908cead7c1ff75b3c00000000nat,
        0x36daec67c58ee680eaa2439fba4a7d6b0ec62b886035d74498a5b3ccb158faafint,
        0x5ac279f368006ea3680000000nat,
        0x27538ec962cc4ca25043501635a707c5b2805e5124ef9c62074f3910d340bfdaint,
        0x21edc5ba99b6dbda2c70d5f34ea5f9b59b6742a9448c29f573d08096e6aa8eecint,
    );
    square(
        0x1588b47eb4f64cb29ffe457280000000nat,
        0x21edc5ba99b6dbda2c70d5f34ea5f9b59b6742a9448c29f573d08096e6aa8eecint,
        0x20d77d9c8ef11937d80913bb99d98ad5037bcd95623117b1efcbc251c881aaa5int,
    );
    square(
        0x2b1168fd69ec99653ffc8ae500000000nat,
        0x20d77d9c8ef11937d80913bb99d98ad5037bcd95623117b1efcbc251c881aaa5int,
        0x192385bae132fe688accaf6e1f0903113e73a9796f251bfe2eb5f9be724187a8int,
    );
    product(
        0x5622d1fad3d932ca7ff915ca00000000nat,
        0x192385bae132fe688accaf6e1f0903113e73a9796f251bfe2eb5f9be724187a8int,
        0x5ac279f368006ea3680000000nat,
        0x27538ec962cc4ca25043501635a707c5b2805e5124ef9c62074f3910d340bfdaint,
        0x73eda753299d7d483339d80809a1d80553bda402fffe5bfeffffffff00000000int,
    );
}

/// The order of the element is made of 2, 906349 and 254760293.
proof fn lemma_order_factors(qs: Seq<int>)
    requires
        qs == seq![2int, 906349int, 254760293int],
    ensures
        covers(0xac45a4010001a4020000000100000000int, qs),
{
    lemma_prime_2();
    lemma_prime_906349();
    lemma_prime_254760293();
    lemma_covers_one(qs);
    lemma_covers_power(1, qs, 0, 32);
    lemma_power_of_two();
    lemma_covers_times(0x1_0000_0000, qs, 1);
    lemma_covers_times(0xdd46d00000000int, qs, 1);
    lemma_covers_times(0xbf4356b66900000000int, qs, 2);
    lemma_covers_times(0xb584f3e6d000dd46d00000000int, qs, 2);
}

/// `2^32` as a literal.
proof fn lemma_power_of_two()
    ensures
        pow(2, 32) == 0x1_0000_0000,
{
    lemma2_to64();
    lemma_pow2(32);
}

/// The order of the scalar field of BLS12-381 is prime.
pub proof fn lemma_bls12381_prime()
    ensures
        is_prime(bls12381_modulus() as int),
{
    let n = bls12381_modulus() as int;
    let qs = seq![2int, 906349int, 254760293int];
    let ws = seq![
        0x39f6d3a994cebea4199cec0404d0ec02a9ded2017fff2dff7fffffff80000000int,
        0x335a960203cb799e9d63ea562b4c2efb725b0bac6fad4ccc35c862c4a8b79d53int,
        0x4ef49a8d838031b2174f19950fc68a46adf3dc6ba38b27920f44717257d57d07int,
    ];
    let f = 0xac45a4010001a4020000000100000000nat;
    lemma_order_factors(qs);
    lemma_pow1(root());
    lemma_power_1();
    lemma_power_2();
    lemma_power_3();
    lemma_power_4();
    lemma_power_5();
    lemma_power_6();
    square(
        0x63a719e17b28797aab280000000nat,
        0x31136c0095ec63e5334ccd522840937650b4ae6fbcbfb6dff42cfb793a12bfc9int,
        0xa59bce66d135443a905cbe27f7ef0033465237fca4ffdb9927f6206dba51b0aint,
    );
    square(
        0x5ac279f368006ea3680000000nat,
        0x27538ec962cc4ca25043501635a707c5b2805e5124ef9c62074f3910d340bfdaint,
        0x6066d68091422459ea719b5c257f54a3a5509ba90dd017135d4facfcccdf73d6int,
    );
    square(
        0x5622d2008000d2010000000080000000nat,
        0x73eda753299d7d483339d80809a1d80553bda402fffe5bfeffffffff00000000int,
        1,
    );
    assert(f / 2nat == 0x5622d2008000d2010000000080000000nat);
    assert(f / 906349nat == 0xc74e33c2f650f2f556500000000nat);
    assert(f / 254760293nat == 0xb584f3e6d000dd46d00000000nat);
    assert(((
        0x73eda753299d7d483339d80809a1d80553bda402fffe5bfeffffffff00000000int
            - 1) * 0x39f6d3a994cebea4199cec0404d0ec02a9ded2017fff2dff7fffffff80000000int)
        % n == 1);
    assert(((
        0xa59bce66d135443a905cbe27f7ef0033465237fca4ffdb9927f6206dba51b0aint
            - 1) * 0x335a960203cb799e9d63ea562b4c2efb725b0bac6fad4ccc35c862c4a8b79d53int)
        % n == 1);
    assert(((
        0x6066d68091422459ea719b5c257f54a3a5509ba90dd017135d4facfcccdf73d6int
            - 1) * 0x4ef49a8d838031b2174f19950fc68a46adf3dc6ba38b27920f44717257d57d07int)
        % n == 1);
    assert(has_order(n, root(), f, qs, ws));
    lemma_order_certificate(n, root(), f, qs, ws);
}

} // verus!
