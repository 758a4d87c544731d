//! What the HUD says about the tile under the pointer.

use vstd::prelude::*;

use crate::park::facility::facility_name;
use crate::park::staff::{staff_name, wage_of};
use crate::park::terrain::terrain_name;
use crate::park::{Park, Staff, TilePos};
use crate::text::{decimal, decimal_of, join, join3, signed_decimal, signed_decimal_of};

verus! {

/// "at X, Y", for the tile `t`.
pub open spec fn place_text(t: TilePos) -> Seq<char> {
    " at "@ + signed_decimal_of(t.x as int) + ", "@ + signed_decimal_of(t.y as int)
}

/// What the HUD says about `tile` of `park`: the shop on it with its price
/// and what it has taken from how many, or else the ground and, where it is
/// not at the base, how many steps up it stands.
pub open spec fn ground_text(park: &Park, tile: TilePos) -> Seq<char> {
    match park.shop_on(tile) {
        Some(shop) => facility_name(shop.kind_of()) + place_text(tile) + " — "@ + signed_decimal_of(
            shop.price_of() as int,
        ) + " each, "@ + signed_decimal_of(shop.takings_of() as int) + " taken from "@ + decimal_of(
            shop.customers_of() as nat,
        ),
        None => {
            let steps = park.land_of().height_of(tile)->0;
            terrain_name(park.land_of().ground_of(tile)->0) + place_text(tile) + if steps == 0 {
                Seq::<char>::empty()
            } else {
                " — "@ + signed_decimal_of(steps as int) + " steps up"@
            }
        },
    }
}

/// What is built is what the HUD names: on a tile with a shop on it, what
/// the HUD says begins with the shop's name, and on every tile it goes on to
/// say where the tile is.
pub proof fn what_the_hud_says_names_what_is_there(park: &Park, tile: TilePos)
    ensures
        park.shop_on(tile) matches Some(shop) ==> ground_text(park, tile).take(
            facility_name(shop.kind_of()).len() as int,
        ) == facility_name(shop.kind_of()),
        ({
            let front = match park.shop_on(tile) {
                Some(shop) => facility_name(shop.kind_of()).len(),
                None => terrain_name(park.land_of().ground_of(tile)->0).len(),
            };
            ground_text(park, tile).subrange(front as int, (front + place_text(tile).len()) as int)
                == place_text(tile)
        }),
{
    let text = ground_text(park, tile);
    let at = place_text(tile);
    match park.shop_on(tile) {
        Some(shop) => {
            let name = facility_name(shop.kind_of());
            let rest = " — "@ + signed_decimal_of(shop.price_of() as int) + " each, "@
                + signed_decimal_of(shop.takings_of() as int) + " taken from "@ + decimal_of(
                shop.customers_of() as nat,
            );
            assert(text =~= name + at + rest);
            assert(text.take(name.len() as int) =~= name);
            assert(text.subrange(name.len() as int, (name.len() + at.len()) as int) =~= at);
        },
        None => {
            let name = terrain_name(park.land_of().ground_of(tile)->0);
            let steps = park.land_of().height_of(tile)->0;
            let rest = if steps == 0 {
                Seq::<char>::empty()
            } else {
                " — "@ + signed_decimal_of(steps as int) + " steps up"@
            };
            assert(text =~= name + at + rest);
            assert(text.subrange(name.len() as int, (name.len() + at.len()) as int) =~= at);
        },
    }
}

/// " at X, Y", written out.
fn place(t: TilePos) -> (s: String)
    ensures
        s@ == place_text(t),
{
    let x = signed_decimal(t.x as i64);
    let y = signed_decimal(t.y as i64);
    let front = join(" at ", x.as_str());
    join3(front.as_str(), ", ", y.as_str())
}

/// What the HUD says about `member`, standing on `tile`: what they do,
/// where they are, and what they are paid each wage bill.
pub open spec fn staff_text(member: Staff, tile: TilePos) -> Seq<char> {
    staff_name(member.kind_of()) + place_text(tile) + " — "@ + signed_decimal_of(
        wage_of(member.kind_of()) as int,
    ) + " a bill"@
}

/// What the HUD says about `member`, standing on `tile`.
pub fn describe_staff(member: &Staff, tile: TilePos) -> (s: String)
    ensures
        s@ == staff_text(*member, tile),
{
    let at = place(tile);
    let wage = signed_decimal(member.wage());
    let head = join(member.kind().name(), at.as_str());
    join3(head.as_str(), " — ", join(wage.as_str(), " a bill").as_str())
}

impl Park {
    /// What the HUD says about `tile`: the shop on it, or the ground.
    pub fn describe(&self, tile: TilePos) -> (s: String)
        requires
            self.wf(),
            self.land_of().holds(tile),
        ensures
            s@ == ground_text(self, tile),
    {
        let at = place(tile);
        match self.shop_at(tile) {
            Some(shop) => {
                let price = signed_decimal(shop.price());
                let takings = signed_decimal(shop.takings());
                let customers = decimal(shop.customers() as u64);
                let head = join(shop.kind().name(), at.as_str());
                let priced = join3(head.as_str(), " — ", price.as_str());
                let each = join3(priced.as_str(), " each, ", takings.as_str());
                join3(each.as_str(), " taken from ", customers.as_str())
            },
            None => {
                let ground = match self.land().ground(tile) {
                    Some(g) => g,
                    None => {
                        assert(false);
                        return String::new();
                    },
                };
                let steps = match self.land().height_at(tile) {
                    Some(h) => h,
                    None => {
                        assert(false);
                        return String::new();
                    },
                };
                let head = join(ground.name(), at.as_str());
                if steps == 0 {
                    proof {
                        assert(head@ =~= head@ + Seq::<char>::empty());
                    }
                    head
                } else {
                    let n = signed_decimal(steps as i64);
                    let tail = join3(" — ", n.as_str(), " steps up");
                    join(head.as_str(), tail.as_str())
                }
            },
        }
    }
}

} // verus!
