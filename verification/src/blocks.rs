//! Block kinds, their statistics, and what they drop.
//!
//! Rock identity is a species that every asteroid draws from its seed; ore
//! identity follows the tier, so that the progression ladder still reads.
use crate::growth::{grow_by, grown_by, law_growth_beats_doubling, law_growth_is_geometric};
use crate::text::{push_signed, roman_text, signed_decimal};
use vstd::prelude::*;
use vstd::string::StringExecFns;

verus! {

pub const AIR: u8 = 0;

pub const BARRIER: u8 = 1;

pub const REGOLITH: u8 = 2;

pub const ROCK: u8 = 3;

pub const ORE: u8 = 4;

/// Number of rock species and of ore kinds.
pub const PALETTE: usize = 8;

/// Hit points of a block: `coeff * 2^exp`, or indestructible.
#[derive(Clone, Copy, PartialEq, Eq, Structural, Debug)]
pub enum Hp {
    Finite { coeff: u32, exp: i32 },
    Infinite,
}

/// Hit points of a fresh block.
pub open spec fn hp_of(id: u8, tier: i32) -> Hp {
    if id == REGOLITH {
        Hp::Finite { coeff: 3, exp: 0 }
    } else if id == ROCK {
        Hp::Finite { coeff: 6, exp: tier }
    } else if id == ORE {
        Hp::Finite { coeff: 12, exp: tier }
    } else if id == BARRIER {
        Hp::Infinite
    } else {
        Hp::Finite { coeff: 0, exp: 0 }
    }
}

/// Hit points of a fresh block. Rock and ore double per tier.
pub fn block_hp(id: u8, tier: i32) -> (hp: Hp)
    ensures
        hp == hp_of(id, tier),
{
    match id {
        REGOLITH => Hp::Finite { coeff: 3, exp: 0 },
        ROCK => Hp::Finite { coeff: 6, exp: tier },
        ORE => Hp::Finite { coeff: 12, exp: tier },
        BARRIER => Hp::Infinite,
        _ => Hp::Finite { coeff: 0, exp: 0 },
    }
}

/// Sale value of one crystal: ten credits, times 2.4 per tier, to the nearest
/// credit.
pub open spec fn ore_worth(tier: int) -> int {
    grown_by(10, 12, 5, tier)
}

/// Sale value of one crystal of the given tier.
pub fn ore_value(tier: i32) -> (v: u64)
    ensures
        v == ore_worth(tier as int),
{
    grow_by(10, 12, 5, tier)
}

/// Values are geometric, and toughness is per tier: a crystal is worth the
/// whole number nearest to ten times 2.4 per tier, up to the cap; dust takes
/// three hit points, rock six and crystal twelve, doubling per tier, and nothing
/// breaks a barrier.
pub proof fn law_values_and_toughness(tier: i32, id: u8)
    ensures
        0 <= tier ==> 2 * (ore_worth(tier as int) * vstd::arithmetic::power::pow(5, tier as nat))
            <= 2 * (10 * vstd::arithmetic::power::pow(12, tier as nat))
            + vstd::arithmetic::power::pow(5, tier as nat),
        0 <= tier && ore_worth(tier as int) < u64::MAX ==> 2 * (10 * vstd::arithmetic::power::pow(
            12,
            tier as nat,
        )) + vstd::arithmetic::power::pow(5, tier as nat) < 2 * ((ore_worth(tier as int) + 1)
            * vstd::arithmetic::power::pow(5, tier as nat)),
        ore_worth(tier as int) <= u64::MAX,
        hp_of(2, tier) == (Hp::Finite { coeff: 3, exp: 0 }),
        hp_of(3, tier) == (Hp::Finite { coeff: 6, exp: tier }),
        hp_of(4, tier) == (Hp::Finite { coeff: 12, exp: tier }),
        hp_of(id, tier) is Infinite <==> id == 1,
        id == 0 || id > 4 ==> hp_of(id, tier) == (Hp::Finite { coeff: 0, exp: 0 }),
        loot_worth(4, tier as int) == ore_worth(tier as int),
        loot_worth(2, tier as int) == 1,
        0 <= tier <= 40 ==> loot_worth(3, tier as int) == vstd::arithmetic::power::pow(
            2,
            tier as nat,
        ),
        tier < 0 ==> loot_worth(3, tier as int) == 1,
        tier > 40 ==> loot_worth(3, tier as int) == vstd::arithmetic::power::pow(2, 40),
        id < 2 || id > 4 ==> loot_worth(id, tier as int) == 0,
{
    if tier >= 0 {
        law_growth_is_geometric(10, 12, 5, tier as nat);
    }
    vstd::arithmetic::power::lemma_pow0(2);
}

/// Value outgrows toughness: from one tier to the next a crystal's hit points
/// double, and its value more than doubles, until the cap on values is reached.
pub proof fn law_value_outgrows_toughness(tier: i32)
    requires
        0 <= tier < i32::MAX,
        ore_worth(tier + 1) < u64::MAX,
    ensures
        ore_worth(tier + 1) > 2 * ore_worth(tier as int),
        hp_of(ORE, (tier + 1) as i32) == (Hp::Finite { coeff: 12, exp: (tier + 1) as i32 }),
        hp_of(ORE, tier) == (Hp::Finite { coeff: 12, exp: tier }),
{
    law_growth_beats_doubling(tier as nat);
}

/// Suffix of the `t`-th round through the ore table.
pub open spec fn suffix_text(t: int) -> Seq<char> {
    if t == 0 {
        ""@
    } else if t == 1 {
        " II"@
    } else if t == 2 {
        " III"@
    } else if t == 3 {
        " IV"@
    } else if t == 4 {
        " V"@
    } else if t == 5 {
        " VI"@
    } else if t == 6 {
        " VII"@
    } else if t == 7 {
        " VIII"@
    } else if t == 8 {
        " IX"@
    } else {
        " x"@ + signed_decimal(t + 1)
    }
}

/// Suffix of the `t`-th round through the ore table.
pub fn tier_suffix(t: i32) -> (s: String)
    requires
        t < i32::MAX,
    ensures
        s@ == suffix_text(t as int),
{
    match t {
        0 => "".to_owned(),
        1 => " II".to_owned(),
        2 => " III".to_owned(),
        3 => " IV".to_owned(),
        4 => " V".to_owned(),
        5 => " VI".to_owned(),
        6 => " VII".to_owned(),
        7 => " VIII".to_owned(),
        8 => " IX".to_owned(),
        _ => {
            let mut s = " x".to_owned();
            push_signed(&mut s, t as i64 + 1);
            s
        },
    }
}

/// Ore names, by row.
pub open spec fn ore_row_text(row: int) -> Seq<char> {
    if row == 0 {
        "Carbon"@
    } else if row == 1 {
        "Ferrite"@
    } else if row == 2 {
        "Cobalt"@
    } else if row == 3 {
        "Titania"@
    } else if row == 4 {
        "Argent"@
    } else if row == 5 {
        "Aurium"@
    } else if row == 6 {
        "Cryonite"@
    } else {
        "Stellarite"@
    }
}

/// Rock names, by row.
pub open spec fn rock_row_text(row: int) -> Seq<char> {
    if row == 0 {
        "Chondrite"@
    } else if row == 1 {
        "Basalt"@
    } else if row == 2 {
        "Magnetite"@
    } else if row == 3 {
        "Hematite"@
    } else if row == 4 {
        "Pallasite"@
    } else if row == 5 {
        "Obsidian"@
    } else if row == 6 {
        "Deepcore"@
    } else {
        "Voidrock"@
    }
}

/// Name of a tier's ore: tiers run through the table, with a suffix from the
/// second round on.
pub open spec fn ore_text(tier: int) -> Seq<char> {
    if tier >= 0 {
        ore_row_text(tier % 8) + suffix_text(tier / 8)
    } else {
        ore_row_text(0) + suffix_text(-((-tier) / 8))
    }
}

/// A tier that has a place in the ore table. Below zero only every eighth one
/// does.
pub open spec fn has_ore(tier: int) -> bool {
    tier >= 0 || tier % 8 == 0
}

fn ore_row(row: i32) -> (s: String)
    requires
        0 <= row < 8,
    ensures
        s@ == ore_row_text(row as int),
{
    match row {
        0 => "Carbon".to_owned(),
        1 => "Ferrite".to_owned(),
        2 => "Cobalt".to_owned(),
        3 => "Titania".to_owned(),
        4 => "Argent".to_owned(),
        5 => "Aurium".to_owned(),
        6 => "Cryonite".to_owned(),
        _ => "Stellarite".to_owned(),
    }
}

/// Name of a tier's ore.
pub fn ore_name(tier: i32) -> (s: String)
    requires
        has_ore(tier as int),
    ensures
        s@ == ore_text(tier as int),
{
    let (row, round): (i32, i32) = if tier >= 0 {
        (tier % 8, tier / 8)
    } else {
        (0, -((-(tier as i64)) / 8) as i32)
    };
    let mut s = ore_row(row);
    let suffix = tier_suffix(round);
    s.append(suffix.as_str());
    s
}

/// Name of a species' rock.
pub fn rock_name(species: u8) -> (s: String)
    ensures
        s@ == rock_row_text(species as int % 8),
{
    match species % 8 {
        0 => "Chondrite".to_owned(),
        1 => "Basalt".to_owned(),
        2 => "Magnetite".to_owned(),
        3 => "Hematite".to_owned(),
        4 => "Pallasite".to_owned(),
        5 => "Obsidian".to_owned(),
        6 => "Deepcore".to_owned(),
        _ => "Voidrock".to_owned(),
    }
}

/// What the crosshair calls a block.
pub open spec fn display_text(id: u8, tier: int, species: u8) -> Seq<char> {
    if id == REGOLITH {
        "Regolith"@
    } else if id == ROCK {
        rock_row_text(species as int % 8)
    } else if id == ORE {
        ore_text(tier) + " Crystal"@
    } else if id == BARRIER {
        "Dense Core"@
    } else {
        Seq::empty()
    }
}

/// What the crosshair calls a block.
pub fn block_display_name(id: u8, tier: i32, species: u8) -> (s: String)
    requires
        id == ORE ==> has_ore(tier as int),
    ensures
        s@ == display_text(id, tier as int, species),
{
    match id {
        REGOLITH => "Regolith".to_owned(),
        ROCK => rock_name(species),
        ORE => {
            let mut s = ore_name(tier);
            s.append(" Crystal");
            s
        },
        BARRIER => "Dense Core".to_owned(),
        _ => String::new(),
    }
}

/// A tier between the given bounds.
pub open spec fn clamped(tier: int, lo: int, hi: int) -> int {
    if tier < lo {
        lo
    } else if tier > hi {
        hi
    } else {
        tier
    }
}

/// Sale value of what a block drops: spoil is worth one credit, rock doubles
/// per tier up to tier 40, crystal is the prize.
pub open spec fn loot_worth(id: u8, tier: int) -> int {
    if id == REGOLITH {
        1
    } else if id == ROCK {
        vstd::arithmetic::power::pow(2, clamped(tier, 0, 40) as nat)
    } else if id == ORE {
        ore_worth(tier)
    } else {
        0
    }
}

fn power_of_two(n: u32) -> (p: u64)
    requires
        n <= 40,
    ensures
        p == vstd::arithmetic::power::pow(2, n as nat),
        p <= 0x100_0000_0000,
{
    let mut p: u64 = 1;
    let mut k: u32 = 0;
    proof {
        vstd::arithmetic::power::lemma_pow0(2);
        vstd::arithmetic::power2::lemma2_to64_rest();
        vstd::arithmetic::power2::lemma_pow2(40);
    }
    while k < n
        invariant
            k <= n <= 40,
            p == vstd::arithmetic::power::pow(2, k as nat),
            p * vstd::arithmetic::power::pow(2, (40 - k) as nat) == 0x100_0000_0000,
            p >= 1,
        decreases n - k,
    {
        proof {
            vstd::arithmetic::power::lemma_pow1(2);
            vstd::arithmetic::power::lemma_pow_adds(2, 1, k as nat);
            vstd::arithmetic::power::lemma_pow_adds(2, 1, (39 - k) as nat);
            vstd::arithmetic::power::lemma_pow_positive(2, (39 - k) as nat);
            let r = vstd::arithmetic::power::pow(2, (39 - k) as nat);
            assert(2 * p <= 0x100_0000_0000 && (2 * p) * r == 0x100_0000_0000) by (nonlinear_arith)
                requires
                    p * (2 * r) == 0x100_0000_0000,
                    r >= 1,
                    p >= 1,
            ;
        }
        p = p * 2;
        k += 1;
    }
    proof {
        vstd::arithmetic::power::lemma_pow_positive(2, (40 - k) as nat);
        let r = vstd::arithmetic::power::pow(2, (40 - k) as nat);
        assert(p <= 0x100_0000_0000) by (nonlinear_arith)
            requires
                p * r == 0x100_0000_0000,
                r >= 1,
                p >= 1,
        ;
    }
    p
}

/// Sale value of what a block drops.
pub fn loot_value(id: u8, tier: i32) -> (v: u64)
    ensures
        v == loot_worth(id, tier as int),
{
    match id {
        REGOLITH => 1,
        ROCK => {
            let t: u32 = if tier < 0 {
                0
            } else if tier > 40 {
                40
            } else {
                tier as u32
            };
            power_of_two(t)
        },
        ORE => ore_value(tier),
        _ => 0,
    }
}

/// Name of what a block drops. Rock goes by the tier here.
pub open spec fn loot_text(id: u8, tier: int) -> Seq<char> {
    if id == REGOLITH {
        "Regolith"@
    } else if id == ROCK {
        rock_row_text(tier % 8)
    } else if id == ORE {
        ore_text(tier)
    } else {
        Seq::empty()
    }
}

/// Name of what a block drops.
pub fn loot_name(id: u8, tier: i32) -> (s: String)
    requires
        id == ORE ==> has_ore(tier as int),
    ensures
        s@ == loot_text(id, tier as int),
{
    match id {
        REGOLITH => "Regolith".to_owned(),
        ROCK => {
            let r: i32 = tier % 8;
            let row: i32 = if r < 0 {
                r + 8
            } else {
                r
            };
            assert(row == tier as int % 8);
            rock_name(row as u8)
        },
        ORE => ore_name(tier),
        _ => String::new(),
    }
}

/// Row of the rock palette that a species is painted with.
pub fn rock_palette_row(species: u8) -> (row: usize)
    ensures
        row == species as int % 8,
        row < PALETTE,
{
    (species % 8) as usize
}

/// Row of the ore palette that a tier is painted with.
pub fn ore_palette_row(tier: i32) -> (row: usize)
    ensures
        row == clamped(tier as int, 0, i32::MAX as int) % 8,
        row < PALETTE,
{
    if tier < 0 {
        0
    } else {
        (tier % 8) as usize
    }
}

/// What a block or a drop is painted with.
#[derive(Clone, Copy, PartialEq, Eq, Structural, Debug)]
pub enum Paint {
    /// Plain dust.
    Dust,
    /// A row of the rock palette.
    Rock(usize),
    /// A row of the ore palette.
    Ore(usize),
    /// The dark of the dense core.
    Core,
    /// The colour of what should not be seen.
    Alarm,
}

/// Paint of a drop: the tier picks the row.
pub open spec fn loot_paint_of(id: u8, tier: int) -> Paint {
    if id == REGOLITH {
        Paint::Dust
    } else if id == ROCK {
        Paint::Rock((clamped(tier, 0, i32::MAX as int) % 8) as usize)
    } else if id == ORE {
        Paint::Ore((clamped(tier, 0, i32::MAX as int) % 8) as usize)
    } else {
        Paint::Alarm
    }
}

/// Paint of a drop.
pub fn loot_paint(id: u8, tier: i32) -> (p: Paint)
    ensures
        p == loot_paint_of(id, tier as int),
{
    let row = ore_palette_row(tier);
    match id {
        REGOLITH => Paint::Dust,
        ROCK => Paint::Rock(row),
        ORE => Paint::Ore(row),
        _ => Paint::Alarm,
    }
}

/// Paint of a block in place: rock goes by species, ore by tier, and dust is
/// tinted with the species' rock.
pub open spec fn block_paint_of(id: u8, tier: int, species: u8) -> Paint {
    if id == REGOLITH {
        Paint::Dust
    } else if id == ROCK {
        Paint::Rock((species as int % 8) as usize)
    } else if id == ORE {
        Paint::Ore((clamped(tier, 0, i32::MAX as int) % 8) as usize)
    } else if id == BARRIER {
        Paint::Core
    } else {
        Paint::Alarm
    }
}

/// Paint of a block in place.
pub fn block_paint(id: u8, tier: i32, species: u8) -> (p: Paint)
    ensures
        p == block_paint_of(id, tier as int, species),
{
    match id {
        REGOLITH => Paint::Dust,
        ROCK => Paint::Rock(rock_palette_row(species)),
        ORE => Paint::Ore(ore_palette_row(tier)),
        BARRIER => Paint::Core,
        _ => Paint::Alarm,
    }
}

/// Every row has a name of its own, of rocks and of ores.
pub proof fn law_rows_have_their_own_names(a: int, b: int)
    requires
        0 <= a < b < 8,
    ensures
        rock_row_text(a) != rock_row_text(b),
        ore_row_text(a) != ore_row_text(b),
{
    reveal_strlit("Chondrite");
    reveal_strlit("Basalt");
    reveal_strlit("Magnetite");
    reveal_strlit("Hematite");
    reveal_strlit("Pallasite");
    reveal_strlit("Obsidian");
    reveal_strlit("Deepcore");
    reveal_strlit("Voidrock");
    reveal_strlit("Carbon");
    reveal_strlit("Ferrite");
    reveal_strlit("Cobalt");
    reveal_strlit("Titania");
    reveal_strlit("Argent");
    reveal_strlit("Aurium");
    reveal_strlit("Cryonite");
    reveal_strlit("Stellarite");
    assert(rock_row_text(a)[0] != rock_row_text(b)[0]);
    if ore_row_text(a).len() == ore_row_text(b).len() {
        assert(ore_row_text(a)[0] != ore_row_text(b)[0] || ore_row_text(a)[1]
            != ore_row_text(b)[1]);
    }
}

/// Ores go by tier: eight in a row share a suffix and go through the names, and
/// the next eight start over with the next suffix.
pub proof fn law_ores_go_round_the_table(tier: int)
    requires
        0 <= tier,
    ensures
        ore_text(tier) == ore_row_text(tier % 8) + suffix_text(tier / 8),
        tier < 8 ==> ore_text(tier) == ore_row_text(tier),
        has_ore(tier),
{
    reveal_strlit("");
    assert(tier < 8 ==> suffix_text(0) =~= Seq::<char>::empty());
    assert(tier < 8 ==> ore_row_text(tier) + suffix_text(0) =~= ore_row_text(tier));
}

/// A block is called and painted for what it is: dust as dust, rock by its
/// species, crystal by its tier, the core as the core; air has no name.
pub proof fn law_blocks_are_called_and_painted(id: u8, tier: i32, species: u8)
    requires
        0 <= tier,
    ensures
        display_text(3, tier as int, species) == rock_row_text(species as int % 8),
        display_text(4, tier as int, species) == ore_text(tier as int) + " Crystal"@,
        display_text(2, tier as int, species) == "Regolith"@,
        display_text(1, tier as int, species) == "Dense Core"@,
        id == 0 || id > 4 ==> display_text(id, tier as int, species).len() == 0,
        loot_text(4, tier as int) == ore_text(tier as int),
        loot_text(3, tier as int) == rock_row_text(tier as int % 8),
        loot_text(2, tier as int) == "Regolith"@,
        block_paint_of(3, tier as int, species) == Paint::Rock((species as int % 8) as usize),
        block_paint_of(4, tier as int, species) == Paint::Ore((tier as int % 8) as usize),
        loot_paint_of(3, tier as int) == Paint::Rock((tier as int % 8) as usize),
        loot_paint_of(4, tier as int) == Paint::Ore((tier as int % 8) as usize),
        block_paint_of(id, tier as int, species) is Dust <==> id == 2,
        block_paint_of(id, tier as int, species) is Core <==> id == 1,
        block_paint_of(id, tier as int, species) is Alarm <==> id == 0 || id > 4,
        loot_paint_of(id, tier as int) is Dust <==> id == 2,
        loot_paint_of(id, tier as int) is Alarm <==> id < 2 || id > 4,
        clamped(tier as int, 0, i32::MAX as int) == tier,
{
}

/// The suffix counts the rounds through the ore table: none in the first, Roman
/// numerals up to the ninth, figures from there on and below the table.
pub proof fn law_suffix_counts_the_rounds(t: int)
    ensures
        t == 0 ==> suffix_text(t).len() == 0,
        1 <= t <= 8 ==> suffix_text(t) == " "@ + roman_text(t + 1),
        t < 0 || t > 8 ==> suffix_text(t) == " x"@ + signed_decimal(t + 1),
{
    reveal_strlit("");
    reveal_strlit(" ");
    reveal_strlit("II");
    reveal_strlit("III");
    reveal_strlit("IV");
    reveal_strlit("V");
    reveal_strlit("VI");
    reveal_strlit("VII");
    reveal_strlit("VIII");
    reveal_strlit("IX");
    reveal_strlit(" II");
    reveal_strlit(" III");
    reveal_strlit(" IV");
    reveal_strlit(" V");
    reveal_strlit(" VI");
    reveal_strlit(" VII");
    reveal_strlit(" VIII");
    reveal_strlit(" IX");
    assert(1 <= t <= 8 ==> suffix_text(t) =~= " "@ + roman_text(t + 1));
}

/// Names deepen with the row, from carbon to stellarite and from chondrite to
/// voidrock.
pub proof fn law_names_stand_in_order(row: int)
    requires
        0 <= row < 8,
    ensures
        ore_row_text(row) == seq![
            "Carbon"@,
            "Ferrite"@,
            "Cobalt"@,
            "Titania"@,
            "Argent"@,
            "Aurium"@,
            "Cryonite"@,
            "Stellarite"@,
        ][row],
        rock_row_text(row) == seq![
            "Chondrite"@,
            "Basalt"@,
            "Magnetite"@,
            "Hematite"@,
            "Pallasite"@,
            "Obsidian"@,
            "Deepcore"@,
            "Voidrock"@,
        ][row],
{
}

/// Below zero a tier that has an ore is named after the first row, with the
/// round it would be in as its suffix.
pub proof fn law_ores_below_the_table(tier: int)
    requires
        tier < 0,
        has_ore(tier),
    ensures
        tier % 8 == 0,
        ore_text(tier) == ore_row_text(0) + (" x"@ + signed_decimal(tier / 8 + 1)),
{
    assert((-tier) / 8 == -(tier / 8));
}

} // verus!
