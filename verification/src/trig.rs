//! Sines and cosines of whole degrees, as integers.
//!
//! The values are scaled by [`UNIT`] and cut off towards zero, so that a
//! direction is never longer than `UNIT` and shorter by less than two.

use vstd::prelude::*;

verus! {

/// The number that stands for 1: two to the power 62.
pub const UNIT: i64 = 4611686018427387904;

/// `UNIT` times the sine of 0, 1, .. 90 degrees, cut off to a whole number.
pub const QUARTER: [i64; 91] = [
    0, 80485018754732517, 160945520993076459, 241356997666611639,
    321694954660579832, 401934920255029411, 482052452579138306, 562023147056444631,
    641822643838717084, 721426635226200704, 800810873071977681, 879951176168187813,
    958823437611858662, 1037403632148101735, 1115667823488437853, 1193592171602022505,
    1271152939977550182, 1348326502853625665, 1425089352415399810, 1501418105955277680,
    1577289512995517788, 1652680462370552855, 1727567989266874719, 1801929282218338997,
    1875741690054758653, 1948982728801669864, 2021630088529168446, 2093661640147730628,
    2165055442148948086, 2235789747289123960, 2305843009213693952, 2375193889020454651,
    2443821261759599861, 2511704222868584950, 2578822094539859111, 2645154432019525852,
    2710681029835013083, 2775381927949855801, 2839237417843716552, 2902228048515791644,
    2964334632409774423, 3025538251258570793, 3085820261846986642, 3145162301690631790,
    3203546294629310614, 3260954456333195553, 3317369299720106253, 3372773640282244204,
    3427150601320760278, 3480483619086560693, 3532756447825785444, 3583953164728422299,
    3634058174778548982, 3683056215504726094, 3730932361629093762, 3777672029613755863,
    3823260982103066936, 3867685332260468640, 3910931547998554686, 3952986456101075755,
    3993837246235628775, 4033471474855808272, 4071877068991631146, 4109042329927080279,
    4144955936763646769, 4179606949868785274, 4212984814208232069, 4245079362561170725,
    4275880818617266067, 4305379799954623003, 4333567320897763125, 4360434795254748506,
    4385974038932618940, 4410177272430345939, 4433037123208544107, 4454546627935218058,
    4474699234606860797, 4493488804544257456, 4510909614262386453, 4526956357213848473,
    4541624145405292212, 4554908510886344500, 4566805407110591271, 4577311210168194799,
    4586422719889771737, 4594137160821195716, 4600452183069027558, 4605365863016315579,
    4608876703908547947, 4610983636309578611, 4611686018427387904,
];

/// `UNIT` times the sine of `deg` degrees, for `0 <= deg < 360`.
pub open spec fn sine(deg: int) -> int {
    if deg <= 90 {
        QUARTER[deg] as int
    } else if deg <= 180 {
        QUARTER[180 - deg] as int
    } else if deg <= 270 {
        -(QUARTER[deg - 180] as int)
    } else {
        -(QUARTER[360 - deg] as int)
    }
}

/// `UNIT` times the cosine of `deg` degrees, for `0 <= deg < 360`.
pub open spec fn cosine(deg: int) -> int {
    sine((deg + 90) % 360)
}

/// Whether the vector `(a, b)` is no longer than `UNIT`, and its squared
/// length no more than three times `UNIT` short of the square of `UNIT`. Such
/// a vector is longer than `UNIT - 2`.
pub open spec fn near_unit(a: int, b: int) -> bool {
    UNIT * UNIT - 3 * UNIT <= a * a + b * b <= UNIT * UNIT
}

/// `UNIT` times the sine of `deg` degrees. Whole turns are left out of
/// account.
pub fn sin_deg(deg: u16) -> (s: i64)
    ensures
        s == sine(deg as int % 360),
        -UNIT <= s <= UNIT,
{
    let deg: u16 = deg % 360;
    proof {
        lemma_quarter_range(sine_index(deg as int));
    }
    if deg <= 90 {
        QUARTER[deg as usize]
    } else if deg <= 180 {
        QUARTER[(180 - deg) as usize]
    } else if deg <= 270 {
        -QUARTER[(deg - 180) as usize]
    } else {
        -QUARTER[(360 - deg) as usize]
    }
}

/// `UNIT` times the cosine of `deg` degrees. Whole turns are left out of
/// account.
pub fn cos_deg(deg: u16) -> (c: i64)
    ensures
        c == cosine(deg as int % 360),
        -UNIT <= c <= UNIT,
{
    sin_deg(deg % 360 + 90)
}

/// The entry of `QUARTER` that gives the size of the sine of `deg` degrees.
pub open spec fn sine_index(deg: int) -> int {
    if deg <= 90 {
        deg
    } else if deg <= 180 {
        180 - deg
    } else if deg <= 270 {
        deg - 180
    } else {
        360 - deg
    }
}

/// The table rises from 0 to `UNIT`.
pub proof fn lemma_quarter_range(j: int)
    requires
        0 <= j <= 90,
    ensures
        0 <= QUARTER[j] <= UNIT,
{
}

/// `near_unit`, with the numbers written out.
proof fn lemma_near_unit(a: int, b: int)
    requires
        21267647932558653966460912964485513216 - 13835058055282163712 <= a * a + b * b <= 21267647932558653966460912964485513216,
    ensures
        near_unit(a, b),
{
    assert(UNIT * UNIT == 21267647932558653966460912964485513216);
}

/// The pairs of the table's entries 0 to 11.
proof fn lemma_pairs_first(k: int)
    requires
        0 <= k <= 11,
    ensures
        near_unit(QUARTER[k] as int, QUARTER[90 - k] as int),
{
    if k == 0 {
        lemma_near_unit(0, 4611686018427387904);
    } else if k == 1 {
        lemma_near_unit(80485018754732517, 4610983636309578611);
    } else if k == 2 {
        lemma_near_unit(160945520993076459, 4608876703908547947);
    } else if k == 3 {
        lemma_near_unit(241356997666611639, 4605365863016315579);
    } else if k == 4 {
        lemma_near_unit(321694954660579832, 4600452183069027558);
    } else if k == 5 {
        lemma_near_unit(401934920255029411, 4594137160821195716);
    } else if k == 6 {
        lemma_near_unit(482052452579138306, 4586422719889771737);
    } else if k == 7 {
        lemma_near_unit(562023147056444631, 4577311210168194799);
    } else if k == 8 {
        lemma_near_unit(641822643838717084, 4566805407110591271);
    } else if k == 9 {
        lemma_near_unit(721426635226200704, 4554908510886344500);
    } else if k == 10 {
        lemma_near_unit(800810873071977681, 4541624145405292212);
    } else if k == 11 {
        lemma_near_unit(879951176168187813, 4526956357213848473);
    }
}

/// The pairs of the table's entries 12 to 23.
proof fn lemma_pairs_second(k: int)
    requires
        12 <= k <= 23,
    ensures
        near_unit(QUARTER[k] as int, QUARTER[90 - k] as int),
{
    if k == 12 {
        lemma_near_unit(958823437611858662, 4510909614262386453);
    } else if k == 13 {
        lemma_near_unit(1037403632148101735, 4493488804544257456);
    } else if k == 14 {
        lemma_near_unit(1115667823488437853, 4474699234606860797);
    } else if k == 15 {
        lemma_near_unit(1193592171602022505, 4454546627935218058);
    } else if k == 16 {
        lemma_near_unit(1271152939977550182, 4433037123208544107);
    } else if k == 17 {
        lemma_near_unit(1348326502853625665, 4410177272430345939);
    } else if k == 18 {
        lemma_near_unit(1425089352415399810, 4385974038932618940);
    } else if k == 19 {
        lemma_near_unit(1501418105955277680, 4360434795254748506);
    } else if k == 20 {
        lemma_near_unit(1577289512995517788, 4333567320897763125);
    } else if k == 21 {
        lemma_near_unit(1652680462370552855, 4305379799954623003);
    } else if k == 22 {
        lemma_near_unit(1727567989266874719, 4275880818617266067);
    } else if k == 23 {
        lemma_near_unit(1801929282218338997, 4245079362561170725);
    }
}

/// The pairs of the table's entries 24 to 35.
proof fn lemma_pairs_third(k: int)
    requires
        24 <= k <= 35,
    ensures
        near_unit(QUARTER[k] as int, QUARTER[90 - k] as int),
{
    if k == 24 {
        lemma_near_unit(1875741690054758653, 4212984814208232069);
    } else if k == 25 {
        lemma_near_unit(1948982728801669864, 4179606949868785274);
    } else if k == 26 {
        lemma_near_unit(2021630088529168446, 4144955936763646769);
    } else if k == 27 {
        lemma_near_unit(2093661640147730628, 4109042329927080279);
    } else if k == 28 {
        lemma_near_unit(2165055442148948086, 4071877068991631146);
    } else if k == 29 {
        lemma_near_unit(2235789747289123960, 4033471474855808272);
    } else if k == 30 {
        lemma_near_unit(2305843009213693952, 3993837246235628775);
    } else if k == 31 {
        lemma_near_unit(2375193889020454651, 3952986456101075755);
    } else if k == 32 {
        lemma_near_unit(2443821261759599861, 3910931547998554686);
    } else if k == 33 {
        lemma_near_unit(2511704222868584950, 3867685332260468640);
    } else if k == 34 {
        lemma_near_unit(2578822094539859111, 3823260982103066936);
    } else if k == 35 {
        lemma_near_unit(2645154432019525852, 3777672029613755863);
    }
}

/// The pairs of the table's entries 36 to 45.
proof fn lemma_pairs_fourth(k: int)
    requires
        36 <= k <= 45,
    ensures
        near_unit(QUARTER[k] as int, QUARTER[90 - k] as int),
{
    if k == 36 {
        lemma_near_unit(2710681029835013083, 3730932361629093762);
    } else if k == 37 {
        lemma_near_unit(2775381927949855801, 3683056215504726094);
    } else if k == 38 {
        lemma_near_unit(2839237417843716552, 3634058174778548982);
    } else if k == 39 {
        lemma_near_unit(2902228048515791644, 3583953164728422299);
    } else if k == 40 {
        lemma_near_unit(2964334632409774423, 3532756447825785444);
    } else if k == 41 {
        lemma_near_unit(3025538251258570793, 3480483619086560693);
    } else if k == 42 {
        lemma_near_unit(3085820261846986642, 3427150601320760278);
    } else if k == 43 {
        lemma_near_unit(3145162301690631790, 3372773640282244204);
    } else if k == 44 {
        lemma_near_unit(3203546294629310614, 3317369299720106253);
    } else if k == 45 {
        lemma_near_unit(3260954456333195553, 3260954456333195553);
    }
}

/// A table entry and the one that mirrors it are the sine and cosine of one
/// angle: together they are close to the unit length.
pub proof fn lemma_quarter_pair(j: int)
    requires
        0 <= j <= 90,
    ensures
        near_unit(QUARTER[j] as int, QUARTER[90 - j] as int),
{
    let k = if j <= 45 {
        j
    } else {
        90 - j
    };
    assert(near_unit(QUARTER[k] as int, QUARTER[90 - k] as int)) by {
        if k <= 11 {
            lemma_pairs_first(k);
        } else if k <= 23 {
            lemma_pairs_second(k);
        } else if k <= 35 {
            lemma_pairs_third(k);
        } else {
            lemma_pairs_fourth(k);
        }
    }
}

/// Half a turn further on, the sine has the opposite sign.
proof fn lemma_half_turn_sine(deg: int)
    requires
        0 <= deg < 360,
    ensures
        sine((deg + 180) % 360) == -sine(deg),
{
    let turned = if deg < 180 {
        deg + 180
    } else {
        deg - 180
    };
    assert((deg + 180) % 360 == turned);
    assert(QUARTER[0] == 0);
}

/// Half a turn further on, sine and cosine have the opposite sign.
pub proof fn lemma_half_turn(deg: int)
    requires
        0 <= deg < 360,
    ensures
        sine((deg + 180) % 360) == -sine(deg),
        cosine((deg + 180) % 360) == -cosine(deg),
{
    lemma_half_turn_sine(deg);
    lemma_half_turn_sine((deg + 90) % 360);
    lemma_turns_commute(deg);
}

/// A quarter turn after a half turn is a half turn after a quarter turn.
proof fn lemma_turns_commute(deg: int)
    requires
        0 <= deg < 360,
    ensures
        ((deg + 180) % 360 + 90) % 360 == ((deg + 90) % 360 + 180) % 360,
{
    let half = if deg < 180 {
        deg + 180
    } else {
        deg - 180
    };
    let quarter = if deg < 270 {
        deg + 90
    } else {
        deg - 270
    };
    assert((deg + 180) % 360 == half);
    assert((deg + 90) % 360 == quarter);
}

/// The direction of every whole degree is close to the unit length.
pub proof fn lemma_unit_length(deg: int)
    requires
        0 <= deg < 360,
    ensures
        near_unit(cosine(deg), sine(deg)),
{
    let j = sine_index(deg);
    lemma_quarter_pair(j);
    let a = QUARTER[j] as int;
    let b = QUARTER[90 - j] as int;
    assert((-a) * (-a) == a * a) by (nonlinear_arith);
    assert((-b) * (-b) == b * b) by (nonlinear_arith);
    let ahead = if deg < 270 {
        deg + 90
    } else {
        deg - 270
    };
    assert((deg + 90) % 360 == ahead);
    assert(sine_index(ahead) == 90 - j);
    assert(sine(deg) == a || sine(deg) == -a);
    assert(sine(ahead) == b || sine(ahead) == -b);
}

} // verus!
