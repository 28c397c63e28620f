//! What the head-up display shows.
use crate::economy::{Inventory, RECALL_COST};
use crate::player::TargetBlock;
use crate::text::{commas, decimal, grouped, push_decimal};
use vstd::prelude::*;
use vstd::string::StringExecFns;

verus! {

/// Edge of a baked icon, in pixels.
pub const ICON_EDGE: usize = 12;

/// Opacity of one glyph cell.
pub open spec fn ink(ch: u8) -> u8 {
    if ch == 0x23 {
        255
    } else if ch == 0x2b {
        120
    } else {
        0
    }
}

fn ink_of(ch: u8) -> (a: u8)
    ensures
        a == ink(ch),
{
    match ch {
        0x23 => 255,
        0x2b => 120,
        _ => 0,
    }
}

/// Bake a glyph into pixels: white, as opaque as its cells say. `glyph` holds
/// the cells row by row.
pub fn bake_icon(glyph: &Vec<u8>) -> (data: Vec<u8>)
    requires
        4 * glyph.len() <= usize::MAX,
    ensures
        data.len() == 4 * glyph.len(),
        forall|i: int|
            0 <= i < data.len() ==> #[trigger] data@[i] == if i % 4 == 3 {
                ink(glyph@[i / 4])
            } else {
                255
            },
        forall|i: int|
            0 <= i < data.len() && i % 4 == 3 ==> #[trigger] data@[i] == if glyph@[i / 4] == 0x23 {
                255int
            } else if glyph@[i / 4] == 0x2b {
                120
            } else {
                0
            },
{
    let mut data: Vec<u8> = Vec::new();
    let mut k: usize = 0;
    while k < glyph.len()
        invariant
            k <= glyph.len(),
            data.len() == 4 * k,
            forall|i: int|
                0 <= i < data.len() ==> #[trigger] data@[i] == if i % 4 == 3 {
                    ink(glyph@[i / 4])
                } else {
                    255
                },
        decreases glyph.len() - k,
    {
        let a = ink_of(glyph[k]);
        data.push(255);
        data.push(255);
        data.push(255);
        data.push(a);
        k += 1;
    }
    data
}

/// The line of the hold: units and their worth.
pub fn hold_line(inventory: &Inventory) -> (s: String)
    requires
        inventory.wf(),
        inventory.worth() <= u64::MAX,
    ensures
        s@ == decimal(inventory.load() as nat) + " \u{b7} "@ + grouped(inventory.worth() as nat),
{
    let mut s = String::new();
    push_decimal(&mut s, inventory.units() as u64);
    s.append(" \u{b7} ");
    let worth = commas(inventory.total_value());
    s.append(worth.as_str());
    assert(s@ =~= decimal(inventory.load() as nat) + " \u{b7} "@ + grouped(
        inventory.worth() as nat,
    ));
    s
}

/// The line under the crosshair.
pub open spec fn target_text(name: Seq<char>, indestructible: bool, value: u64) -> Seq<char> {
    if indestructible {
        name + " \u{2014} impervious"@
    } else if value > 0 {
        name + "  ("@ + grouped(value as nat) + " cr)"@
    } else {
        name
    }
}

/// The line under the crosshair.
pub fn target_line(t: &TargetBlock) -> (s: String)
    ensures
        s@ == target_text(t.name@, t.indestructible, t.value),
        t.indestructible ==> s@ == t.name@ + " \u{2014} impervious"@,
        !t.indestructible && t.value > 0 ==> s@ == t.name@ + "  ("@ + grouped(t.value as nat)
            + " cr)"@,
        !t.indestructible && t.value == 0 ==> s@ == t.name@,
{
    let mut s = t.name.clone();
    if t.indestructible {
        s.append(" \u{2014} impervious");
    } else if t.value > 0 {
        s.append("  (");
        let v = commas(t.value);
        s.append(v.as_str());
        s.append(" cr)");
    }
    s
}

/// Sockets that are always shown.
pub const PIP_SOCKETS: u32 = 5;

/// Pips in the row.
pub const PIP_MAX: u32 = 10;

/// Whether a pip is shown: one per charge, and empty sockets up to a soft
/// maximum so that the row reads as a gauge.
pub open spec fn pip_shown_of(pip: u32, charges: u32) -> bool {
    (pip < charges && pip < PIP_MAX) || (charges < PIP_MAX && pip < PIP_SOCKETS)
}

/// Whether a pip is shown, and whether it is lit.
pub fn pip_state(pip: u32, charges: u32) -> (r: (bool, bool))
    ensures
        r == (pip_shown_of(pip, charges), pip < charges),
        r.1 == (pip < charges),
        r.0 == (pip < 10 && (pip < charges || (pip < 5 && charges < 10))),
{
    let cap: u32 = if charges < PIP_MAX {
        charges
    } else {
        PIP_MAX
    };
    let shown = if pip < cap {
        true
    } else if pip < PIP_MAX && charges < PIP_MAX {
        pip < PIP_SOCKETS
    } else {
        false
    };
    (shown, pip < charges)
}

/// Charges beyond the row, as text.
pub open spec fn overflow_text(charges: u32) -> Seq<char> {
    if charges > PIP_MAX {
        "+"@ + decimal((charges - PIP_MAX) as nat)
    } else {
        Seq::empty()
    }
}

/// Charges beyond the row, as text.
pub fn overflow_line(charges: u32) -> (s: String)
    ensures
        s@ == overflow_text(charges),
        charges > 10 ==> s@ == "+"@ + decimal((charges - 10) as nat),
        charges <= 10 ==> s@.len() == 0,
{
    if charges > PIP_MAX {
        let mut s = "+".to_owned();
        push_decimal(&mut s, (charges - PIP_MAX) as u64);
        s
    } else {
        String::new()
    }
}

/// A priced row of the depot panel.
pub struct Offer {
    pub name: String,
    /// Level to show as dots, for rows that have one.
    pub level: Option<u32>,
    pub cost: u64,
}

/// A row of the depot panel as it is drawn.
pub struct ShopRow {
    pub name: String,
    pub level: Option<u32>,
    pub cost: String,
    pub affordable: bool,
}

/// The row that sells the hold: what it fetches, offered while there is
/// something in it.
pub fn sell_row(inventory: &Inventory) -> (r: ShopRow)
    requires
        inventory.wf(),
        inventory.worth() <= u64::MAX,
    ensures
        r.name@ == "Sell hold"@,
        r.level is None,
        r.cost@ == "+"@ + grouped(inventory.worth() as nat),
        r.affordable == (inventory.load() > 0),
{
    let mut cost = "+".to_owned();
    let worth = commas(inventory.total_value());
    cost.append(worth.as_str());
    ShopRow { name: "Sell hold".to_owned(), level: None, cost, affordable: inventory.units() > 0 }
}

/// The row of something that can be bought again and again.
pub fn offer_row(o: Offer, credits: u64) -> (r: ShopRow)
    ensures
        r.name == o.name,
        r.level == o.level,
        r.cost@ == grouped(o.cost as nat),
        r.affordable == (credits >= o.cost),
{
    let cost = commas(o.cost);
    ShopRow { affordable: credits >= o.cost, name: o.name, level: o.level, cost }
}

/// The row of the recall rig: bought once.
pub fn recall_row(owned: bool, credits: u64) -> (r: ShopRow)
    ensures
        r.name@ == "Recall rig"@,
        r.level is None,
        r.cost@ == if owned {
            "OWNED"@
        } else {
            grouped(RECALL_COST as nat)
        },
        r.affordable == (!owned && credits >= RECALL_COST),
{
    ShopRow {
        name: "Recall rig".to_owned(),
        level: None,
        cost: if owned {
            "OWNED".to_owned()
        } else {
            commas(RECALL_COST)
        },
        affordable: !owned && credits >= RECALL_COST,
    }
}

/// Dots of a level row.
pub const LEVEL_DOTS: u32 = 5;

/// Whether a level dot is shown, and whether it is lit.
pub fn dot_state(level: Option<u32>, idx: u32) -> (r: (bool, bool))
    ensures
        r == match level {
            Some(l) => (true, idx < l && idx < LEVEL_DOTS),
            None => (false, false),
        },
{
    match level {
        Some(l) => (true, idx < l && idx < LEVEL_DOTS),
        None => (false, false),
    }
}

/// The control reference: shown only while the cursor is free.
pub fn controls_line(focused: bool) -> (s: String)
    ensures
        s@ == if focused {
            Seq::empty()
        } else {
            "Click to take the controls\nWASD thrust \u{b7} Space up \u{b7} C down \u{b7} Shift brake \u{b7} LMB laser \u{b7} Q charge \u{b7} E trade \u{b7} T/G recall \u{b7} Esc release"@
        },
{
    if focused {
        String::new()
    } else {
        "Click to take the controls\nWASD thrust \u{b7} Space up \u{b7} C down \u{b7} Shift brake \u{b7} LMB laser \u{b7} Q charge \u{b7} E trade \u{b7} T/G recall \u{b7} Esc release".to_owned()
    }
}

/// The gauge counts: as many pips are lit as there are charges, up to the end
/// of the row, a lit one is always shown, and what goes beyond the row is told.
pub proof fn law_gauge_counts_charges(pip: u32, charges: u32)
    ensures
        pip < 10 && pip < charges ==> pip_shown_of(pip, charges),
        pip_shown_of(pip, charges) ==> pip < 10,
        charges < 10 ==> (pip_shown_of(pip, charges) <==> pip < charges || pip < 5),
        charges >= 10 ==> (pip_shown_of(pip, charges) <==> pip < 10),
        charges > 10 ==> overflow_text(charges) == "+"@ + decimal((charges - 10) as nat),
        charges <= 10 ==> overflow_text(charges).len() == 0,
{
}

/// A full cell is opaque, a half cell is half so, and every other is clear.
pub proof fn law_cells_are_inked(ch: u8)
    ensures
        ink(ch) == 255 <==> ch == 0x23,
        ink(ch) == 120 <==> ch == 0x2b,
        ink(ch) == 0 <==> ch != 0x23 && ch != 0x2b,
{
}

} // verus!
