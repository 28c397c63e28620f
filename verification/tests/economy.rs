//! Loot, trade and the numbers that grow.
use limits::blocks::{
    block_display_name, block_hp, block_paint, loot_name, loot_paint, loot_value, ore_name,
    ore_palette_row, ore_value, rock_name, rock_palette_row, tier_suffix, Hp, Paint, AIR, BARRIER,
    ORE, REGOLITH, ROCK,
};
use limits::economy::{
    exponent_of, note_line, pickup_pass, shop_system, teleport, try_buy, DropSight, Inventory,
    Jumps, Pickup, ShopKeys, ShopNote, Stack, StatusMsg, Upgrades, Wallet, RECALL_COST,
};
use limits::growth::{grow, grow_by};
use limits::text::{commas, push_decimal, push_signed, roman, to_decimal};

#[test]
fn commas_group_thousands() {
    assert_eq!(commas(12345), "12,345");
    assert_eq!(commas(0), "0");
    assert_eq!(commas(999), "999");
    assert_eq!(commas(1000), "1,000");
    assert_eq!(commas(1_000_007), "1,000,007");
    assert_eq!(commas(u64::MAX), "18,446,744,073,709,551,615");
    for n in [0u64, 7, 1000, 123_456_789, u64::MAX] {
        assert_eq!(commas(n).replace(',', ""), to_decimal(n));
    }
}

#[test]
fn numbers_are_written_in_decimal() {
    assert_eq!(to_decimal(u64::MAX), u64::MAX.to_string());
    let mut s = String::from("x");
    push_decimal(&mut s, 0);
    push_decimal(&mut s, 42);
    push_signed(&mut s, -7);
    push_signed(&mut s, i64::MIN);
    assert_eq!(s, format!("x042-7{}", i64::MIN));
}

#[test]
fn sectors_are_roman_up_to_ten() {
    let r: Vec<String> = (1..=10).map(roman).collect();
    assert_eq!(r, vec!["I", "II", "III", "IV", "V", "VI", "VII", "VIII", "IX", "X"]);
    assert_eq!(roman(11), "11");
    assert_eq!(roman(0), "0");
    assert_eq!(roman(-3), "-3");
}

#[test]
fn toughness_doubles_per_tier() {
    assert_eq!(block_hp(REGOLITH, 5), Hp::Finite { coeff: 3, exp: 0 });
    assert_eq!(block_hp(ROCK, 3), Hp::Finite { coeff: 6, exp: 3 });
    assert_eq!(block_hp(ORE, -1), Hp::Finite { coeff: 12, exp: -1 });
    assert_eq!(block_hp(BARRIER, 0), Hp::Infinite);
    assert_eq!(block_hp(AIR, 0), Hp::Finite { coeff: 0, exp: 0 });
    assert_eq!(block_hp(77, 0), Hp::Finite { coeff: 0, exp: 0 });
}

#[test]
fn ore_values_grow_by_two_point_four() {
    let v: Vec<u64> = [0, 1, 2, 5, 10, 20].iter().map(|t| ore_value(*t)).collect();
    assert_eq!(v, vec![10, 24, 58, 796, 63_403, 401_998_872]);
    assert_eq!(ore_value(-1), 4);
    assert_eq!(ore_value(-10), 0);
    assert_eq!(ore_value(i32::MIN), 0);
    assert_eq!(ore_value(i32::MAX), u64::MAX);
    for t in 0..30 {
        assert_eq!(ore_value(t), (10.0 * 2.4f64.powi(t)).round() as u64);
        // More than twice as much per tier, while rock only doubles.
        assert!(ore_value(t + 1) > 2 * ore_value(t));
    }
}

#[test]
fn growth_is_rounded_to_nearest_and_capped() {
    assert_eq!(grow(12, 33, 20, 0), 12);
    assert_eq!(grow(12, 33, 20, 1), 20); // 19.8
    assert_eq!(grow(1, 1, 2, 1), 1); // one half rounds up
    assert_eq!(grow(1, 1, 2, 2), 0);
    assert_eq!(grow(0, 9, 5, 1000), 0);
    assert_eq!(grow(10, 12, 5, 10_000), u64::MAX);
    assert_eq!(grow_by(10, 12, 5, -1), 4);
    assert_eq!(grow_by(10, 12, 5, 2), 58);
}

#[test]
fn names_follow_tier_and_species() {
    assert_eq!(ore_name(0), "Carbon");
    assert_eq!(ore_name(7), "Stellarite");
    assert_eq!(ore_name(8), "Carbon II");
    assert_eq!(ore_name(71), "Stellarite IX");
    assert_eq!(ore_name(72), "Carbon x10");
    assert_eq!(tier_suffix(0), "");
    assert_eq!(tier_suffix(8), " IX");
    assert_eq!(tier_suffix(9), " x10");
    assert_eq!(tier_suffix(-1), " x0");
    assert_eq!(rock_name(3), "Hematite");
    assert_eq!(rock_name(11), "Hematite");
    assert_eq!(block_display_name(REGOLITH, 9, 9), "Regolith");
    assert_eq!(block_display_name(ROCK, 9, 7), "Voidrock");
    assert_eq!(block_display_name(ORE, 2, 7), "Cobalt Crystal");
    assert_eq!(block_display_name(BARRIER, 0, 0), "Dense Core");
    assert_eq!(block_display_name(AIR, 0, 0), "");
    assert_eq!(loot_name(REGOLITH, 3), "Regolith");
    assert_eq!(loot_name(ROCK, 9), "Basalt");
    assert_eq!(loot_name(ORE, 5), "Aurium");
    assert_eq!(loot_name(AIR, 5), "");
}

#[test]
fn loot_sells_by_kind() {
    assert_eq!(loot_value(REGOLITH, 30), 1);
    assert_eq!(loot_value(ROCK, 0), 1);
    assert_eq!(loot_value(ROCK, 5), 32);
    assert_eq!(loot_value(ROCK, -4), 1);
    assert_eq!(loot_value(ROCK, 99), 1 << 40);
    assert_eq!(loot_value(ORE, 2), 58);
    assert_eq!(loot_value(BARRIER, 2), 0);
    assert_eq!(loot_value(AIR, 2), 0);
}

#[test]
fn paint_comes_from_the_palettes() {
    assert_eq!(loot_paint(REGOLITH, 1), Paint::Dust);
    assert_eq!(loot_paint(ROCK, 9), Paint::Rock(1));
    assert_eq!(loot_paint(ORE, -5), Paint::Ore(0));
    assert_eq!(loot_paint(BARRIER, 0), Paint::Alarm);
    assert_eq!(block_paint(ROCK, 3, 14), Paint::Rock(6));
    assert_eq!(block_paint(ORE, 10, 14), Paint::Ore(2));
    assert_eq!(block_paint(REGOLITH, 10, 14), Paint::Dust);
    assert_eq!(block_paint(BARRIER, 10, 14), Paint::Core);
    assert_eq!(block_paint(99, 10, 14), Paint::Alarm);
    assert_eq!(rock_palette_row(255), 7);
    assert_eq!(ore_palette_row(17), 1);
    assert_eq!(ore_palette_row(-17), 0);
}

#[test]
fn prices_rise_with_the_level() {
    let costs = |lvl: u32| {
        let u = Upgrades { damage_lvl: lvl, swings_lvl: lvl, capacity_lvl: lvl, recall: false };
        (u.damage_cost(), u.swings_cost(), u.capacity_cost())
    };
    assert_eq!(costs(0), (12, 20, 30));
    assert_eq!(costs(1), (20, 34, 54));
    assert_eq!(costs(2), (33, 58, 97));
    assert_eq!(costs(5), (147, 284, 567));
    assert_eq!(costs(10), (1795, 4032, 10711));
    assert_eq!(costs(20), (268_448, 812_846, 3_824_471));
    for lvl in 0..45u32 {
        let n = lvl as i32;
        let want = (
            (12.0 * 1.65f64.powi(n)).round() as u64,
            (20.0 * 1.7f64.powi(n)).round() as u64,
            (30.0 * 1.8f64.powi(n)).round() as u64,
        );
        assert_eq!(costs(lvl), want, "level {lvl}");
    }
    // Levels beyond the exponent's range wrap around to negative exponents.
    assert_eq!(exponent_of(u32::MAX), -1);
    assert_eq!(costs(u32::MAX), (7, 12, 17));
}

#[test]
fn capacity_grows_by_eight() {
    let mut u = Upgrades::new();
    assert_eq!(u.capacity(), 16);
    u.capacity_lvl = 3;
    assert_eq!(u.capacity(), 40);
}

#[test]
fn the_hold_stacks_by_kind() {
    let mut inv = Inventory::new();
    for (id, band) in [(ORE, 1), (ROCK, 0), (ORE, 0), (ORE, 1), (REGOLITH, 5)] {
        inv.add(id, band);
    }
    assert_eq!(inv.units(), 5);
    assert_eq!(
        inv.stacks(),
        &vec![
            Stack { id: REGOLITH, band: 5, count: 1 },
            Stack { id: ROCK, band: 0, count: 1 },
            Stack { id: ORE, band: 0, count: 1 },
            Stack { id: ORE, band: 1, count: 2 },
        ]
    );
    assert_eq!(inv.total_value(), 1 + 1 + 10 + 48);
    assert_eq!(
        inv.top_stacks(2),
        vec![Stack { id: ORE, band: 1, count: 2 }, Stack { id: ORE, band: 0, count: 1 }]
    );
    assert_eq!(inv.top_stacks(9).len(), 4);
    inv.clear();
    assert_eq!((inv.units(), inv.total_value(), inv.stacks().len()), (0, 0, 0));
}

const NO_KEYS: ShopKeys =
    ShopKeys { sell: false, damage: false, swings: false, capacity: false, recall: false };

#[test]
fn selling_empties_the_hold() {
    let mut wallet = Wallet { money: 5 };
    let mut inv = Inventory::new();
    let mut ups = Upgrades::new();
    let sell = ShopKeys { sell: true, ..NO_KEYS };
    let note = shop_system(true, sell, &mut wallet, &mut inv, &mut ups);
    assert_eq!(note, Some(ShopNote::NothingToSell));
    inv.add(ORE, 0);
    inv.add(ORE, 1);
    assert_eq!(shop_system(false, sell, &mut wallet, &mut inv, &mut ups), None, "too far");
    assert_eq!((wallet.money, inv.units()), (5, 2));
    let note = shop_system(true, sell, &mut wallet, &mut inv, &mut ups);
    assert_eq!(note, Some(ShopNote::Sold { units: 2, value: 34 }));
    assert_eq!((wallet.money, inv.units()), (39, 0));
    assert_eq!(shop_system(true, NO_KEYS, &mut wallet, &mut inv, &mut ups), None);
}

#[test]
fn limits_bind_only_what_is_traded() {
    let all =
        ShopKeys { sell: true, damage: true, swings: true, capacity: true, recall: true };
    let mut wallet = Wallet { money: u64::MAX };
    let mut inv = Inventory::new();
    let mut ups = Upgrades {
        damage_lvl: u32::MAX,
        swings_lvl: u32::MAX,
        capacity_lvl: u32::MAX,
        recall: false,
    };
    inv.add(ORE, 0);
    // Out of range no key does anything, however full the books are.
    assert_eq!(shop_system(false, all, &mut wallet, &mut inv, &mut ups), None);
    assert_eq!((wallet.money, inv.units(), ups.damage_lvl), (u64::MAX, 1, u32::MAX));
    // In range each limit belongs to its own key.
    assert_eq!(shop_system(true, NO_KEYS, &mut wallet, &mut inv, &mut ups), None);
    let recall = ShopKeys { recall: true, ..NO_KEYS };
    assert_eq!(
        shop_system(true, recall, &mut wallet, &mut inv, &mut ups),
        Some(ShopNote::RecallBought)
    );
    assert_eq!(wallet.money, u64::MAX - RECALL_COST);
    // A level that there is no money for is refused, not counted.
    wallet.money = 0;
    let damage = ShopKeys { damage: true, ..NO_KEYS };
    assert!(matches!(
        shop_system(true, damage, &mut wallet, &mut inv, &mut ups),
        Some(ShopNote::DamageTooDear(_))
    ));
    assert_eq!((wallet.money, ups.damage_lvl), (0, u32::MAX));
}

#[test]
fn upgrades_cost_what_they_cost() {
    let mut wallet = Wallet { money: 12 };
    let mut inv = Inventory::new();
    let mut ups = Upgrades::new();
    let damage = ShopKeys { damage: true, ..NO_KEYS };
    let note = shop_system(true, damage, &mut wallet, &mut inv, &mut ups);
    assert_eq!(note, Some(ShopNote::DamageBought));
    assert_eq!((wallet.money, ups.damage_lvl), (0, 1));
    let note = shop_system(true, damage, &mut wallet, &mut inv, &mut ups);
    assert_eq!(note, Some(ShopNote::DamageTooDear(20)));
    assert_eq!((wallet.money, ups.damage_lvl), (0, 1));

    wallet.money = 20 + 30 + RECALL_COST;
    let swings = ShopKeys { swings: true, ..NO_KEYS };
    assert_eq!(
        shop_system(true, swings, &mut wallet, &mut inv, &mut ups),
        Some(ShopNote::SwingsBought)
    );
    let capacity = ShopKeys { capacity: true, ..NO_KEYS };
    assert_eq!(
        shop_system(true, capacity, &mut wallet, &mut inv, &mut ups),
        Some(ShopNote::CapacityBought(24))
    );
    let recall = ShopKeys { recall: true, ..NO_KEYS };
    assert_eq!(
        shop_system(true, recall, &mut wallet, &mut inv, &mut ups),
        Some(ShopNote::RecallBought)
    );
    assert_eq!(wallet.money, 0);
    assert!(ups.recall);
    assert_eq!(shop_system(true, recall, &mut wallet, &mut inv, &mut ups), None, "owned");
    assert_eq!(
        shop_system(true, swings, &mut wallet, &mut inv, &mut ups),
        Some(ShopNote::SwingsTooDear(34))
    );
    assert_eq!(
        shop_system(true, capacity, &mut wallet, &mut inv, &mut ups),
        Some(ShopNote::CapacityTooDear(54))
    );
    let mut poor = Upgrades::new();
    assert_eq!(
        shop_system(true, recall, &mut wallet, &mut inv, &mut poor),
        Some(ShopNote::RecallTooDear)
    );
}

#[test]
fn a_frame_of_trade_balances() {
    // Sell for 34, then buy in key order until the money runs out.
    let mut wallet = Wallet { money: 0 };
    let mut inv = Inventory::new();
    inv.add(ORE, 0);
    inv.add(ORE, 1);
    let mut ups = Upgrades::new();
    let all = ShopKeys { sell: true, damage: true, swings: true, capacity: true, recall: true };
    let note = shop_system(true, all, &mut wallet, &mut inv, &mut ups);
    assert_eq!(note, Some(ShopNote::RecallTooDear), "the last word");
    assert_eq!((ups.damage_lvl, ups.swings_lvl, ups.capacity_lvl), (1, 1, 0));
    assert_eq!(wallet.money, 34 - 12 - 20);
}

#[test]
fn buying_takes_money_only_when_there_is_enough() {
    let mut w = Wallet { money: 10 };
    assert!(!try_buy(11, &mut w));
    assert_eq!(w.money, 10);
    assert!(try_buy(10, &mut w));
    assert_eq!(w.money, 0);
    assert!(try_buy(0, &mut w));
}

#[test]
fn notes_read_as_lines() {
    let line = |n: ShopNote| note_line(n, "6");
    assert_eq!(line(ShopNote::NothingToSell), "Nothing to sell — go dig!");
    assert_eq!(line(ShopNote::Sold { units: 14, value: 260 }), "Sold 14 items for $260");
    assert_eq!(line(ShopNote::DamageBought), "Pickaxe damage → 6");
    assert_eq!(line(ShopNote::DamageTooDear(20)), "Need $20 for damage upgrade");
    assert_eq!(note_line(ShopNote::SwingsBought, "2.24"), "Swing speed → 2.24/s");
    assert_eq!(line(ShopNote::SwingsTooDear(34)), "Need $34 for speed upgrade");
    assert_eq!(line(ShopNote::CapacityBought(24)), "Pack capacity → 24");
    assert_eq!(line(ShopNote::CapacityTooDear(54)), "Need $54 for pack upgrade");
    assert_eq!(
        line(ShopNote::RecallBought),
        "Recall device online — [T] surface, [G] dive to depth"
    );
    assert_eq!(line(ShopNote::RecallTooDear), "Need $200 for the recall device");
}

#[test]
fn jumps_need_the_device() {
    assert_eq!(teleport(false, true, true, true), Jumps { surface: false, dive: false });
    assert_eq!(teleport(true, true, false, true), Jumps { surface: true, dive: false });
    assert_eq!(teleport(true, true, true, true), Jumps { surface: true, dive: true });
    assert_eq!(teleport(true, false, true, false), Jumps { surface: false, dive: false });
}

#[test]
fn status_lines_start_fresh() {
    let mut s = StatusMsg { text: String::new(), ttl: 0 };
    s.set("hello".to_string(), 25);
    assert_eq!((s.text.as_str(), s.ttl), ("hello", 25));
}

#[test]
fn drops_are_taken_pulled_or_left() {
    let sight = |in_range: bool, touching: bool| DropSight { id: ROCK, band: 0, in_range, touching };
    let mut inv = Inventory::new();
    let ups = Upgrades::new();
    let drops = vec![sight(false, false), sight(true, false), sight(true, true), sight(true, true)];
    assert_eq!(
        pickup_pass(&mut inv, &ups, &drops),
        vec![Pickup::Ignored, Pickup::Pulled, Pickup::Collected, Pickup::Collected]
    );
    assert_eq!(inv.units(), 2);
    // The last unit of room takes one of two touched drops.
    for _ in 0..13 {
        inv.add(ROCK, 0);
    }
    assert_eq!(inv.units(), 15);
    assert_eq!(
        pickup_pass(&mut inv, &ups, &drops),
        vec![Pickup::Ignored, Pickup::Pulled, Pickup::Collected, Pickup::PackFull]
    );
    assert_eq!((inv.units(), ups.capacity()), (16, 16));
    assert_eq!(
        pickup_pass(&mut inv, &ups, &drops),
        vec![Pickup::Ignored, Pickup::PackFull, Pickup::PackFull, Pickup::PackFull]
    );
    assert_eq!(inv.units(), 16);
}
