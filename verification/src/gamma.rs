//! The transfer curve between linear channel values and 8-bit levels.
//!
//! An 8-bit level `k` stands for the linear value `(k / 255)` raised to the
//! power 2.2. The curve is kept as the table of those 256 values; a linear value
//! is encoded as the highest level whose value does not exceed it.
use crate::fixed::Fixed;
use vstd::prelude::*;

verus! {

/// The linear value of each 8-bit level, as a raw fixed-point value.
pub const LEVELS: [i64; 256] = [
    0, 21806, 100193, 244477,
    460366, 752152, 1123322, 1576838,
    2115288, 2740974, 3455982, 4262215,
    5161432, 6155266, 7245246, 8432808,
    9719310, 11106036, 12594211, 14185002,
    15879523, 17678846, 19583998, 21595969,
    23715714, 25944152, 28282177, 30730650,
    33290409, 35962267, 38747013, 41645415,
    44658221, 47786160, 51029943, 54390263,
    57867799, 61463213, 65177152, 69010250,
    72963128, 77036395, 81230645, 85546465,
    89984426, 94545093, 99229018, 104036744,
    108968805, 114025725, 119208020, 124516198,
    129950759, 135512194, 141200988, 147017618,
    152962553, 159036257, 165239187, 171571793,
    178034519, 184627803, 191352077, 198207769,
    205195299, 212315084, 219567533, 226953053,
    234472046, 242124905, 249912024, 257833789,
    265890583, 274082784, 282410765, 290874898,
    299475547, 308213076, 317087842, 326100200,
    335250501, 344539093, 353966319, 363532520,
    373238034, 383083195, 393068333, 403193777,
    413459850, 423866876, 434415172, 445105056,
    455936840, 466910834, 478027347, 489286683,
    500689146, 512235035, 523924649, 535758281,
    547736225, 559858771, 572126208, 584538820,
    597096892, 609800705, 622650538, 635646669,
    648789371, 662078919, 675515583, 689099631,
    702831332, 716710950, 730738749, 744914989,
    759239930, 773713830, 788336946, 803109530,
    818031836, 833104114, 848326613, 863699582,
    879223266, 894897908, 910723753, 926701040,
    942830010, 959110901, 975543949, 992129389,
    1008867456, 1025758382, 1042802397, 1059999731,
    1077350612, 1094855267, 1112513922, 1130326800,
    1148294125, 1166416118, 1184692999, 1203124988,
    1221712302, 1240455158, 1259353771, 1278408356,
    1297619126, 1316986293, 1336510067, 1356190658,
    1376028274, 1396023124, 1416175413, 1436485347,
    1456953130, 1477578964, 1498363053, 1519305597,
    1540406797, 1561666850, 1583085956, 1604664312,
    1626402114, 1648299556, 1670356833, 1692574138,
    1714951665, 1737489603, 1760188144, 1783047477,
    1806067791, 1829249273, 1852592112, 1876096492,
    1899762599, 1923590618, 1947580732, 1971733124,
    1996047976, 2020525468, 2045165782, 2069969096,
    2094935590, 2120065441, 2145358827, 2170815924,
    2196436907, 2222221952, 2248171233, 2274284923,
    2300563194, 2327006220, 2353614170, 2380387217,
    2407325528, 2434429274, 2461698624, 2489133744,
    2516734802, 2544501965, 2572435398, 2600535266,
    2628801734, 2657234966, 2685835125, 2714602372,
    2743536871, 2772638783, 2801908268, 2831345486,
    2860950596, 2890723758, 2920665130, 2950774870,
    2981053133, 3011500078, 3042115860, 3072900633,
    3103854554, 3134977776, 3166270452, 3197732736,
    3229364781, 3261166738, 3293138759, 3325280994,
    3357593595, 3390076710, 3422730489, 3455555082,
    3488550636, 3521717298, 3555055217, 3588564539,
    3622245410, 3656097977, 3690122383, 3724318775,
    3758687296, 3793228090, 3827941300, 3862827070,
    3897885542, 3933116857, 3968521157, 4004098583,
    4039849275, 4075773375, 4111871020, 4148142351,
    4184587506, 4221206623, 4257999841, 4294967296,
];

/// The linear value of the level `k`, as a raw fixed-point value.
#[verifier::opaque]
pub open spec fn level_value(k: int) -> int {
    LEVELS[k] as int
}

/// The highest level among `0..=n` whose linear value is at most `v`, and 0
/// where there is none.
pub open spec fn level_below(v: int, n: nat) -> nat
    decreases n,
{
    if n == 0 {
        0
    } else if level_value(n as int) <= v {
        n
    } else {
        level_below(v, (n - 1) as nat)
    }
}

/// The 8-bit level that encodes the raw linear value `v`: the highest whose
/// linear value is at most `v`.
pub open spec fn level(v: int) -> nat {
    level_below(v, 255)
}

/// The table rises strictly, from zero to one.
pub proof fn lemma_levels_rise()
    ensures
        forall|i: int, j: int| 0 <= i < j < 256 ==> level_value(i) < level_value(j),
        level_value(0) == 0,
        level_value(255) == 0x1_0000_0000,
{
    reveal(level_value);
}

/// `level_below(v, n)` is `k` once `k <= n` is known to be the highest level
/// among `0..=n` that `v` reaches.
pub proof fn lemma_level_below(v: int, n: nat, k: nat)
    requires
        k <= n,
        k == 0 || level_value(k as int) <= v,
        forall|j: int| k < j <= n ==> v < level_value(j),
    ensures
        level_below(v, n) == k,
    decreases n,
{
    if n > k {
        lemma_level_below(v, (n - 1) as nat, k);
    }
}

/// A level fits in a byte.
pub proof fn lemma_level_is_byte(v: int)
    ensures
        level(v) <= 255,
{
    lemma_level_below_bound(v, 255);
}

/// `level_below(v, n)` is at most `n`.
pub proof fn lemma_level_below_bound(v: int, n: nat)
    ensures
        level_below(v, n) <= n,
    decreases n,
{
    if n > 0 {
        lemma_level_below_bound(v, (n - 1) as nat);
    }
}

/// The linear value of the level `k`.
pub fn decode(k: u8) -> (r: Fixed)
    ensures
        r.raw == level_value(k as int),
{
    proof {
        reveal(level_value);
    }
    Fixed { raw: LEVELS[k as usize] }
}

/// The level that encodes `v`. A negative value is encoded as 0, a value of
/// one or more as 255.
pub fn encode(v: Fixed) -> (k: u8)
    ensures
        k == level(v.raw as int),
{
    proof {
        lemma_levels_rise();
    }
    if decode(255).raw <= v.raw {
        proof {
            lemma_level_below(v.raw as int, 255, 255);
        }
        return 255;
    }
    let mut lo: u8 = 0;
    let mut hi: u8 = 255;
    while hi - lo > 1
        invariant
            lo < hi <= 255,
            lo == 0 || level_value(lo as int) <= v.raw,
            v.raw < level_value(hi as int),
        decreases hi - lo,
    {
        let mid: u8 = lo + (hi - lo) / 2;
        if decode(mid).raw <= v.raw {
            lo = mid;
        } else {
            hi = mid;
        }
    }
    proof {
        lemma_levels_rise();
        lemma_level_below(v.raw as int, 255, lo as nat);
    }
    lo
}

/// A value that reaches the linear value of the level `k` has at least the
/// level `k`.
pub proof fn lemma_level_at_least(v: int, k: nat, n: nat)
    requires
        1 <= k <= n,
        level_value(k as int) <= v,
    ensures
        level_below(v, n) >= k,
    decreases n,
{
    if n > k && level_value(n as int) > v {
        lemma_level_at_least(v, k, (n - 1) as nat);
    }
}

/// Encoding clamps: a value has the level of the nearest value between zero
/// and one.
pub proof fn lemma_level_clamps(v: int)
    ensures
        v <= 0 ==> level(v) == 0,
        v >= 0x1_0000_0000 ==> level(v) == 255,
{
    lemma_levels_rise();
    if v <= 0 {
        lemma_level_below(v, 255, 0);
    }
    if v >= 0x1_0000_0000 {
        lemma_level_below(v, 255, 255);
    }
}

/// Encoding the linear value of a level gives the level back.
pub proof fn lemma_encode_decode(k: u8)
    ensures
        level(level_value(k as int)) == k,
{
    lemma_levels_rise();
    lemma_level_below(level_value(k as int), 255, k as nat);
}

} // verus!
