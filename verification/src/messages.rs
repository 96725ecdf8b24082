//! Builders for the game's log messages, with their exact contents stated
//! over character sequences.

use vstd::prelude::*;
use vstd::string::StringExecFns;

verus! {

/// The decimal rendering of an integer.
pub uninterp spec fn decimal_of(n: int) -> Seq<char>;

/// Relies on i32's Display implementation: the decimal digits of `n`, which
/// depend on `n` alone.
#[verifier::external_body]
pub fn i32_string(n: i32) -> (r: String)
    ensures
        r@ == decimal_of(n as int),
{
    format!("{}", n)
}

pub open spec fn hit_message(att: Seq<char>, tgt: Seq<char>, dmg: int) -> Seq<char> {
    att + " hits "@ + tgt + " for "@ + decimal_of(dmg) + " damage"@
}

/// "A hits B for N damage"
pub fn format_hit(att: &String, tgt: &String, dmg: i32) -> (r: String)
    ensures
        r@ == hit_message(att@, tgt@, dmg as int),
{
    let mut s = String::from_str(att.as_str());
    s.append(" hits ");
    s.append(tgt.as_str());
    s.append(" for ");
    let d = i32_string(dmg);
    s.append(d.as_str());
    s.append(" damage");
    s
}

pub open spec fn unable_message(att: Seq<char>, tgt: Seq<char>) -> Seq<char> {
    att + " is unable to hurt "@ + tgt
}

/// "A is unable to hurt B"
pub fn format_unable(att: &String, tgt: &String) -> (r: String)
    ensures
        r@ == unable_message(att@, tgt@),
{
    let mut s = String::from_str(att.as_str());
    s.append(" is unable to hurt ");
    s.append(tgt.as_str());
    s
}

pub open spec fn pickup_message(item: Seq<char>) -> Seq<char> {
    "You pick up the "@ + item
}

/// "You pick up the X"
pub fn format_pickup(item: &String) -> (r: String)
    ensures
        r@ == pickup_message(item@),
{
    let mut s = String::from_str("You pick up the ");
    s.append(item.as_str());
    s
}

pub open spec fn drop_message(item: Seq<char>) -> Seq<char> {
    "You drop the "@ + item
}

/// "You drop the X"
pub fn format_drop(item: &String) -> (r: String)
    ensures
        r@ == drop_message(item@),
{
    let mut s = String::from_str("You drop the ");
    s.append(item.as_str());
    s
}

pub open spec fn confuse_message(item: Seq<char>, tgt: Seq<char>) -> Seq<char> {
    "You use "@ + item + " on "@ + tgt + ", confusing them"@
}

/// "You use X on B, confusing them"
pub fn format_confuse(item: &String, tgt: &String) -> (r: String)
    ensures
        r@ == confuse_message(item@, tgt@),
{
    let mut s = String::from_str("You use ");
    s.append(item.as_str());
    s.append(" on ");
    s.append(tgt.as_str());
    s.append(", confusing them");
    s
}

pub open spec fn heal_message(item: Seq<char>, amount: int) -> Seq<char> {
    "The "@ + item + " heals you by "@ + decimal_of(amount) + " points"@
}

/// "The X heals you by N points"
pub fn format_heal(item: &String, amount: i32) -> (r: String)
    ensures
        r@ == heal_message(item@, amount as int),
{
    let mut s = String::from_str("The ");
    s.append(item.as_str());
    s.append(" heals you by ");
    let d = i32_string(amount);
    s.append(d.as_str());
    s.append(" points");
    s
}

pub open spec fn inflict_message(item: Seq<char>, tgt: Seq<char>, dmg: int) -> Seq<char> {
    "You use "@ + item + " on "@ + tgt + " and inflict "@ + decimal_of(dmg) + " damage"@
}

/// "You use X on B and inflict N damage"
pub fn format_inflict(item: &String, tgt: &String, dmg: i32) -> (r: String)
    ensures
        r@ == inflict_message(item@, tgt@, dmg as int),
{
    let mut s = String::from_str("You use ");
    s.append(item.as_str());
    s.append(" on ");
    s.append(tgt.as_str());
    s.append(" and inflict ");
    let d = i32_string(dmg);
    s.append(d.as_str());
    s.append(" damage");
    s
}

pub open spec fn unequip_message(item: Seq<char>) -> Seq<char> {
    "You unequip "@ + item
}

/// "You unequip X"
pub fn format_unequip(item: &String) -> (r: String)
    ensures
        r@ == unequip_message(item@),
{
    let mut s = String::from_str("You unequip ");
    s.append(item.as_str());
    s
}

pub open spec fn equip_message(item: Seq<char>) -> Seq<char> {
    "You equip "@ + item
}

/// "You equip X"
pub fn format_equip(item: &String) -> (r: String)
    ensures
        r@ == equip_message(item@),
{
    let mut s = String::from_str("You equip ");
    s.append(item.as_str());
    s
}

/// A fixed message, as an owned string.
pub fn fixed_message(text: &str) -> (r: String)
    ensures
        r@ == text@,
{
    String::from_str(text)
}

} // verus!
