//! The protocol's fixed strings, as byte sequences.
//!
//! Each wire keyword appears twice: a spec function giving its byte
//! sequence, and an executable builder proved to produce it.

use vstd::prelude::*;
use crate::bytes::copy_bytes;

verus! {

pub open spec fn s_request() -> Seq<u8> {
    seq!['r' as u8, 'e' as u8, 'q' as u8, 'u' as u8, 'e' as u8, 's' as u8, 't' as u8]
}

pub fn b_request() -> (r: Vec<u8>)
    ensures
        r@ == s_request(),
{
    copy_bytes(['r' as u8, 'e' as u8, 'q' as u8, 'u' as u8, 'e' as u8, 's' as u8, 't' as u8].as_slice())
}

pub open spec fn s_response() -> Seq<u8> {
    seq!['r' as u8, 'e' as u8, 's' as u8, 'p' as u8, 'o' as u8, 'n' as u8, 's' as u8, 'e' as u8]
}

pub fn b_response() -> (r: Vec<u8>)
    ensures
        r@ == s_response(),
{
    copy_bytes(['r' as u8, 'e' as u8, 's' as u8, 'p' as u8, 'o' as u8, 'n' as u8, 's' as u8, 'e' as u8].as_slice())
}

pub open spec fn s_name() -> Seq<u8> {
    seq!['n' as u8, 'a' as u8, 'm' as u8, 'e' as u8]
}

pub fn b_name() -> (r: Vec<u8>)
    ensures
        r@ == s_name(),
{
    copy_bytes(['n' as u8, 'a' as u8, 'm' as u8, 'e' as u8].as_slice())
}

pub open spec fn s_language() -> Seq<u8> {
    seq!['l' as u8, 'a' as u8, 'n' as u8, 'g' as u8, 'u' as u8, 'a' as u8, 'g' as u8, 'e' as u8]
}

pub fn b_language() -> (r: Vec<u8>)
    ensures
        r@ == s_language(),
{
    copy_bytes(['l' as u8, 'a' as u8, 'n' as u8, 'g' as u8, 'u' as u8, 'a' as u8, 'g' as u8, 'e' as u8].as_slice())
}

pub open spec fn s_id() -> Seq<u8> {
    seq!['i' as u8, 'd' as u8]
}

pub fn b_id() -> (r: Vec<u8>)
    ensures
        r@ == s_id(),
{
    copy_bytes(['i' as u8, 'd' as u8].as_slice())
}

pub open spec fn s_team() -> Seq<u8> {
    seq!['t' as u8, 'e' as u8, 'a' as u8, 'm' as u8]
}

pub fn b_team() -> (r: Vec<u8>)
    ensures
        r@ == s_team(),
{
    copy_bytes(['t' as u8, 'e' as u8, 'a' as u8, 'm' as u8].as_slice())
}

pub open spec fn s_blue() -> Seq<u8> {
    seq!['b' as u8, 'l' as u8, 'u' as u8, 'e' as u8]
}

pub fn b_blue() -> (r: Vec<u8>)
    ensures
        r@ == s_blue(),
{
    copy_bytes(['b' as u8, 'l' as u8, 'u' as u8, 'e' as u8].as_slice())
}

pub open spec fn s_red() -> Seq<u8> {
    seq!['r' as u8, 'e' as u8, 'd' as u8]
}

pub fn b_red() -> (r: Vec<u8>)
    ensures
        r@ == s_red(),
{
    copy_bytes(['r' as u8, 'e' as u8, 'd' as u8].as_slice())
}

pub open spec fn s_hint() -> Seq<u8> {
    seq!['h' as u8, 'i' as u8, 'n' as u8, 't' as u8]
}

pub fn b_hint() -> (r: Vec<u8>)
    ensures
        r@ == s_hint(),
{
    copy_bytes(['h' as u8, 'i' as u8, 'n' as u8, 't' as u8].as_slice())
}

pub open spec fn s_guesses() -> Seq<u8> {
    seq!['g' as u8, 'u' as u8, 'e' as u8, 's' as u8, 's' as u8, 'e' as u8, 's' as u8]
}

pub fn b_guesses() -> (r: Vec<u8>)
    ensures
        r@ == s_guesses(),
{
    copy_bytes(['g' as u8, 'u' as u8, 'e' as u8, 's' as u8, 's' as u8, 'e' as u8, 's' as u8].as_slice())
}

pub open spec fn s_x() -> Seq<u8> {
    seq!['x' as u8]
}

pub fn b_x() -> (r: Vec<u8>)
    ensures
        r@ == s_x(),
{
    copy_bytes(['x' as u8].as_slice())
}

pub open spec fn s_y() -> Seq<u8> {
    seq!['y' as u8]
}

pub fn b_y() -> (r: Vec<u8>)
    ensures
        r@ == s_y(),
{
    copy_bytes(['y' as u8].as_slice())
}

pub open spec fn s_room() -> Seq<u8> {
    seq!['r' as u8, 'o' as u8, 'o' as u8, 'm' as u8]
}

pub fn b_room() -> (r: Vec<u8>)
    ensures
        r@ == s_room(),
{
    copy_bytes(['r' as u8, 'o' as u8, 'o' as u8, 'm' as u8].as_slice())
}

pub open spec fn s_join() -> Seq<u8> {
    seq!['j' as u8, 'o' as u8, 'i' as u8, 'n' as u8]
}

pub fn b_join() -> (r: Vec<u8>)
    ensures
        r@ == s_join(),
{
    copy_bytes(['j' as u8, 'o' as u8, 'i' as u8, 'n' as u8].as_slice())
}

pub open spec fn s_start() -> Seq<u8> {
    seq!['s' as u8, 't' as u8, 'a' as u8, 'r' as u8, 't' as u8]
}

pub fn b_start() -> (r: Vec<u8>)
    ensures
        r@ == s_start(),
{
    copy_bytes(['s' as u8, 't' as u8, 'a' as u8, 'r' as u8, 't' as u8].as_slice())
}

pub open spec fn s_guess() -> Seq<u8> {
    seq!['g' as u8, 'u' as u8, 'e' as u8, 's' as u8, 's' as u8]
}

pub fn b_guess() -> (r: Vec<u8>)
    ensures
        r@ == s_guess(),
{
    copy_bytes(['g' as u8, 'u' as u8, 'e' as u8, 's' as u8, 's' as u8].as_slice())
}

pub open spec fn s_pass() -> Seq<u8> {
    seq!['p' as u8, 'a' as u8, 's' as u8, 's' as u8]
}

pub fn b_pass() -> (r: Vec<u8>)
    ensures
        r@ == s_pass(),
{
    copy_bytes(['p' as u8, 'a' as u8, 's' as u8, 's' as u8].as_slice())
}

pub open spec fn s_reset() -> Seq<u8> {
    seq!['r' as u8, 'e' as u8, 's' as u8, 'e' as u8, 't' as u8]
}

pub fn b_reset() -> (r: Vec<u8>)
    ensures
        r@ == s_reset(),
{
    copy_bytes(['r' as u8, 'e' as u8, 's' as u8, 'e' as u8, 't' as u8].as_slice())
}

pub open spec fn s_error() -> Seq<u8> {
    seq!['e' as u8, 'r' as u8, 'r' as u8, 'o' as u8, 'r' as u8]
}

pub fn b_error() -> (r: Vec<u8>)
    ensures
        r@ == s_error(),
{
    copy_bytes(['e' as u8, 'r' as u8, 'r' as u8, 'o' as u8, 'r' as u8].as_slice())
}

pub open spec fn s_tiles() -> Seq<u8> {
    seq!['t' as u8, 'i' as u8, 'l' as u8, 'e' as u8, 's' as u8]
}

pub fn b_tiles() -> (r: Vec<u8>)
    ensures
        r@ == s_tiles(),
{
    copy_bytes(['t' as u8, 'i' as u8, 'l' as u8, 'e' as u8, 's' as u8].as_slice())
}

pub open spec fn s_game() -> Seq<u8> {
    seq!['g' as u8, 'a' as u8, 'm' as u8, 'e' as u8]
}

pub fn b_game() -> (r: Vec<u8>)
    ensures
        r@ == s_game(),
{
    copy_bytes(['g' as u8, 'a' as u8, 'm' as u8, 'e' as u8].as_slice())
}

pub open spec fn s_players() -> Seq<u8> {
    seq!['p' as u8, 'l' as u8, 'a' as u8, 'y' as u8, 'e' as u8, 'r' as u8, 's' as u8]
}

pub fn b_players() -> (r: Vec<u8>)
    ensures
        r@ == s_players(),
{
    copy_bytes(['p' as u8, 'l' as u8, 'a' as u8, 'y' as u8, 'e' as u8, 'r' as u8, 's' as u8].as_slice())
}

pub open spec fn s_state() -> Seq<u8> {
    seq!['s' as u8, 't' as u8, 'a' as u8, 't' as u8, 'e' as u8]
}

pub fn b_state() -> (r: Vec<u8>)
    ensures
        r@ == s_state(),
{
    copy_bytes(['s' as u8, 't' as u8, 'a' as u8, 't' as u8, 'e' as u8].as_slice())
}

pub open spec fn s_board() -> Seq<u8> {
    seq!['b' as u8, 'o' as u8, 'a' as u8, 'r' as u8, 'd' as u8]
}

pub fn b_board() -> (r: Vec<u8>)
    ensures
        r@ == s_board(),
{
    copy_bytes(['b' as u8, 'o' as u8, 'a' as u8, 'r' as u8, 'd' as u8].as_slice())
}

pub open spec fn s_words() -> Seq<u8> {
    seq!['w' as u8, 'o' as u8, 'r' as u8, 'd' as u8, 's' as u8]
}

pub fn b_words() -> (r: Vec<u8>)
    ensures
        r@ == s_words(),
{
    copy_bytes(['w' as u8, 'o' as u8, 'r' as u8, 'd' as u8, 's' as u8].as_slice())
}

pub open spec fn s_cards() -> Seq<u8> {
    seq!['c' as u8, 'a' as u8, 'r' as u8, 'd' as u8, 's' as u8]
}

pub fn b_cards() -> (r: Vec<u8>)
    ensures
        r@ == s_cards(),
{
    copy_bytes(['c' as u8, 'a' as u8, 'r' as u8, 'd' as u8, 's' as u8].as_slice())
}

pub open spec fn s_turn() -> Seq<u8> {
    seq!['t' as u8, 'u' as u8, 'r' as u8, 'n' as u8]
}

pub fn b_turn() -> (r: Vec<u8>)
    ensures
        r@ == s_turn(),
{
    copy_bytes(['t' as u8, 'u' as u8, 'r' as u8, 'n' as u8].as_slice())
}

pub open spec fn s_action() -> Seq<u8> {
    seq!['a' as u8, 'c' as u8, 't' as u8, 'i' as u8, 'o' as u8, 'n' as u8]
}

pub fn b_action() -> (r: Vec<u8>)
    ensures
        r@ == s_action(),
{
    copy_bytes(['a' as u8, 'c' as u8, 't' as u8, 'i' as u8, 'o' as u8, 'n' as u8].as_slice())
}

pub open spec fn s_master() -> Seq<u8> {
    seq!['m' as u8, 'a' as u8, 's' as u8, 't' as u8, 'e' as u8, 'r' as u8]
}

pub fn b_master() -> (r: Vec<u8>)
    ensures
        r@ == s_master(),
{
    copy_bytes(['m' as u8, 'a' as u8, 's' as u8, 't' as u8, 'e' as u8, 'r' as u8].as_slice())
}

pub open spec fn s_previous() -> Seq<u8> {
    seq!['p' as u8, 'r' as u8, 'e' as u8, 'v' as u8, 'i' as u8, 'o' as u8, 'u' as u8, 's' as u8]
}

pub fn b_previous() -> (r: Vec<u8>)
    ensures
        r@ == s_previous(),
{
    copy_bytes(['p' as u8, 'r' as u8, 'e' as u8, 'v' as u8, 'i' as u8, 'o' as u8, 'u' as u8, 's' as u8].as_slice())
}

pub open spec fn s_play() -> Seq<u8> {
    seq!['p' as u8, 'l' as u8, 'a' as u8, 'y' as u8]
}

pub fn b_play() -> (r: Vec<u8>)
    ensures
        r@ == s_play(),
{
    copy_bytes(['p' as u8, 'l' as u8, 'a' as u8, 'y' as u8].as_slice())
}

pub open spec fn s_end() -> Seq<u8> {
    seq!['e' as u8, 'n' as u8, 'd' as u8]
}

pub fn b_end() -> (r: Vec<u8>)
    ensures
        r@ == s_end(),
{
    copy_bytes(['e' as u8, 'n' as u8, 'd' as u8].as_slice())
}

pub open spec fn s_neutral() -> Seq<u8> {
    seq!['n' as u8, 'e' as u8, 'u' as u8, 't' as u8, 'r' as u8, 'a' as u8, 'l' as u8]
}

pub fn b_neutral() -> (r: Vec<u8>)
    ensures
        r@ == s_neutral(),
{
    copy_bytes(['n' as u8, 'e' as u8, 'u' as u8, 't' as u8, 'r' as u8, 'a' as u8, 'l' as u8].as_slice())
}

pub open spec fn s_death() -> Seq<u8> {
    seq!['d' as u8, 'e' as u8, 'a' as u8, 't' as u8, 'h' as u8]
}

pub fn b_death() -> (r: Vec<u8>)
    ensures
        r@ == s_death(),
{
    copy_bytes(['d' as u8, 'e' as u8, 'a' as u8, 't' as u8, 'h' as u8].as_slice())
}

pub open spec fn s_inv_guesses() -> Seq<u8> {
    seq!['g' as u8, 'u' as u8, 'e' as u8, 's' as u8, 's' as u8, 'e' as u8, 's' as u8, ' ' as u8, 'm' as u8, 'u' as u8, 's' as u8, 't' as u8, ' ' as u8, 'b' as u8, 'e' as u8, ' ' as u8, 'b' as u8, 'e' as u8, 't' as u8, 'w' as u8, 'e' as u8, 'e' as u8, 'n' as u8, ' ' as u8, '1' as u8, ' ' as u8, 'a' as u8, 'n' as u8, 'd' as u8, ' ' as u8, '9' as u8]
}

pub fn b_inv_guesses() -> (r: Vec<u8>)
    ensures
        r@ == s_inv_guesses(),
{
    copy_bytes(['g' as u8, 'u' as u8, 'e' as u8, 's' as u8, 's' as u8, 'e' as u8, 's' as u8, ' ' as u8, 'm' as u8, 'u' as u8, 's' as u8, 't' as u8, ' ' as u8, 'b' as u8, 'e' as u8, ' ' as u8, 'b' as u8, 'e' as u8, 't' as u8, 'w' as u8, 'e' as u8, 'e' as u8, 'n' as u8, ' ' as u8, '1' as u8, ' ' as u8, 'a' as u8, 'n' as u8, 'd' as u8, ' ' as u8, '9' as u8].as_slice())
}

pub open spec fn s_inv_x() -> Seq<u8> {
    seq!['x' as u8, ' ' as u8, 'm' as u8, 'u' as u8, 's' as u8, 't' as u8, ' ' as u8, 'b' as u8, 'e' as u8, ' ' as u8, 'b' as u8, 'e' as u8, 't' as u8, 'w' as u8, 'e' as u8, 'e' as u8, 'n' as u8, ' ' as u8, '0' as u8, ' ' as u8, 'a' as u8, 'n' as u8, 'd' as u8, ' ' as u8, '4' as u8]
}

pub fn b_inv_x() -> (r: Vec<u8>)
    ensures
        r@ == s_inv_x(),
{
    copy_bytes(['x' as u8, ' ' as u8, 'm' as u8, 'u' as u8, 's' as u8, 't' as u8, ' ' as u8, 'b' as u8, 'e' as u8, ' ' as u8, 'b' as u8, 'e' as u8, 't' as u8, 'w' as u8, 'e' as u8, 'e' as u8, 'n' as u8, ' ' as u8, '0' as u8, ' ' as u8, 'a' as u8, 'n' as u8, 'd' as u8, ' ' as u8, '4' as u8].as_slice())
}

pub open spec fn s_inv_y() -> Seq<u8> {
    seq!['y' as u8, ' ' as u8, 'm' as u8, 'u' as u8, 's' as u8, 't' as u8, ' ' as u8, 'b' as u8, 'e' as u8, ' ' as u8, 'b' as u8, 'e' as u8, 't' as u8, 'w' as u8, 'e' as u8, 'e' as u8, 'n' as u8, ' ' as u8, '0' as u8, ' ' as u8, 'a' as u8, 'n' as u8, 'd' as u8, ' ' as u8, '4' as u8]
}

pub fn b_inv_y() -> (r: Vec<u8>)
    ensures
        r@ == s_inv_y(),
{
    copy_bytes(['y' as u8, ' ' as u8, 'm' as u8, 'u' as u8, 's' as u8, 't' as u8, ' ' as u8, 'b' as u8, 'e' as u8, ' ' as u8, 'b' as u8, 'e' as u8, 't' as u8, 'w' as u8, 'e' as u8, 'e' as u8, 'n' as u8, ' ' as u8, '0' as u8, ' ' as u8, 'a' as u8, 'n' as u8, 'd' as u8, ' ' as u8, '4' as u8].as_slice())
}

} // verus!
