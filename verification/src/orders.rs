//! What the rules ask of whoever carries them out.

use crate::clock::Span;
use crate::place::{Point, Spot};
use crate::single::Single;
use vstd::prelude::*;
use vstd::string::*;

verus! {

/// What the status line says the character is about.
#[derive(Clone, Copy, Debug, PartialEq, Eq, Structural)]
pub enum Doing {
    Idle,
    Shopping,
    Tidying,
    Traveling,
}

/// One thing to be carried out.
#[derive(Clone, Debug)]
pub enum Order {
    /// A line for the log.
    Note(String),
    /// A line for the status.
    Say(Doing, String),
    /// End the journey under way.
    CancelTravel,
    /// Close the counter's window.
    CloseVendor,
    /// Use something in the world.
    UseObject(u32),
    /// Walk up to something.
    HeadFor { at: Point, within: Single, name: String },
    /// Stop walking after whatever is being followed.
    StopFollowing,
    /// Start the shopping rules afresh.
    NewShop,
    /// Tell the shopping rules that what they asked for was refused.
    ShopRefused,
    /// A counter came to nothing: leave it alone for a while, longer each time.
    SkipVendor { x: i32, y: i32, why: String },
    /// Leave a counter alone for this long.
    HoldVendor { x: i32, y: i32, span: Span },
    /// Forget the counters left alone whose time is up.
    TidyVendors,
    /// One stack became part of another: what the survivor was taken for is
    /// settled now.
    Merged { from: u32, to: u32 },
    /// How a pour of one stack into another went, for how soon the pair is
    /// offered again.
    PourWent { from: u32, to: u32, how: PourEnd },
    /// The server's refusal to move this has been read.
    RefusalRead(u32),
}

/// How a pour of one stack into another ended.
#[derive(Clone, Copy, Debug, PartialEq, Eq, Structural)]
pub enum PourEnd {
    Landed,
    /// The server turned it down, with its own code.
    Refused(u32),
    /// No word came.
    NoWord,
    /// The two are not both carried, are not the same thing, or do not stack.
    NeverJoins,
}

/// What an order comes to.
pub enum Deed {
    Note(Seq<char>),
    Say(Doing, Seq<char>),
    CancelTravel,
    CloseVendor,
    UseObject(u32),
    HeadFor { at: Point, within: Single, name: Seq<char> },
    StopFollowing,
    NewShop,
    ShopRefused,
    SkipVendor { spot: (i32, i32), why: Seq<char> },
    HoldVendor { spot: (i32, i32), span: Span },
    TidyVendors,
    Merged { from: u32, to: u32 },
    PourWent { from: u32, to: u32, how: PourEnd },
    RefusalRead(u32),
}

impl View for Order {
    type V = Deed;

    open spec fn view(&self) -> Deed {
        match *self {
            Order::Note(s) => Deed::Note(s@),
            Order::Say(d, s) => Deed::Say(d, s@),
            Order::CancelTravel => Deed::CancelTravel,
            Order::CloseVendor => Deed::CloseVendor,
            Order::UseObject(g) => Deed::UseObject(g),
            Order::HeadFor { at, within, name } => Deed::HeadFor { at, within, name: name@ },
            Order::StopFollowing => Deed::StopFollowing,
            Order::NewShop => Deed::NewShop,
            Order::ShopRefused => Deed::ShopRefused,
            Order::SkipVendor { x, y, why } => Deed::SkipVendor { spot: (x, y), why: why@ },
            Order::HoldVendor { x, y, span } => Deed::HoldVendor { spot: (x, y), span },
            Order::TidyVendors => Deed::TidyVendors,
            Order::Merged { from, to } => Deed::Merged { from, to },
            Order::PourWent { from, to, how } => Deed::PourWent { from, to, how },
            Order::RefusalRead(g) => Deed::RefusalRead(g),
        }
    }
}

/// What some orders come to.
pub open spec fn deeds(s: Seq<Order>) -> Seq<Deed> {
    s.map_values(|o: Order| o@)
}

/// Give one more order.
pub fn give(out: &mut Vec<Order>, order: Order)
    ensures
        deeds(final(out)@) == deeds(old(out)@).push(order@),
{
    out.push(order);
    assert(deeds(out@) =~= deeds(old(out)@).push(order@));
}

/// Give a line for the log.
pub fn note(out: &mut Vec<Order>, text: String)
    ensures
        deeds(final(out)@) == deeds(old(out)@).push(Deed::Note(text@)),
{
    give(out, Order::Note(text));
}

/// Give a line for the status.
pub fn say(out: &mut Vec<Order>, doing: Doing, text: String)
    ensures
        deeds(final(out)@) == deeds(old(out)@).push(Deed::Say(doing, text@)),
{
    give(out, Order::Say(doing, text));
}

/// Ask for a counter to be left alone.
pub fn skip_vendor(out: &mut Vec<Order>, at: Spot, why: String)
    ensures
        deeds(final(out)@) == deeds(old(out)@).push(
            Deed::SkipVendor { spot: at.spec_spot(), why: why@ },
        ),
{
    let (x, y) = crate::place::spot(at);
    give(out, Order::SkipVendor { x, y, why });
}

/// Ask for a counter to be left alone for so long.
pub fn hold_vendor(out: &mut Vec<Order>, at: Spot, span: Span)
    ensures
        deeds(final(out)@) == deeds(old(out)@).push(
            Deed::HoldVendor { spot: at.spec_spot(), span },
        ),
{
    let (x, y) = crate::place::spot(at);
    give(out, Order::HoldVendor { x, y, span });
}

} // verus!
