use crate::wire::{dec_digits, dec_int, push_bytes, push_i64_dec, push_u64_dec};
use vstd::prelude::*;

verus! {

// ---------------------------------------------------------------------------
// Protocol text fragments
// ---------------------------------------------------------------------------

/// The protocol text `person` as bytes.
pub open spec fn lit_person() -> Seq<u8> {
    seq![112u8, 101u8, 114u8, 115u8, 111u8, 110u8]
}

/// The protocol text `N,` as bytes.
pub open spec fn lit_n_pre() -> Seq<u8> {
    seq![78u8, 44u8]
}

/// The protocol text `T,` as bytes.
pub open spec fn lit_t_pre() -> Seq<u8> {
    seq![84u8, 44u8]
}

/// The protocol text ` has joined` as bytes.
pub open spec fn lit_joined() -> Seq<u8> {
    seq![32u8, 104u8, 97u8, 115u8, 32u8, 106u8, 111u8, 105u8, 110u8, 101u8, 100u8]
}

/// The protocol text `,0,0,0,0,0` as bytes.
pub open spec fn lit_zeros() -> Seq<u8> {
    seq![44u8, 48u8, 44u8, 48u8, 44u8, 48u8, 44u8, 48u8, 44u8, 48u8]
}

/// The protocol text `P,` as bytes.
pub open spec fn lit_p_pre() -> Seq<u8> {
    seq![80u8, 44u8]
}

/// The protocol text `U,` as bytes.
pub open spec fn lit_u_pre() -> Seq<u8> {
    seq![85u8, 44u8]
}

/// The protocol text `E,` as bytes.
pub open spec fn lit_e_pre() -> Seq<u8> {
    seq![69u8, 44u8]
}

/// The protocol text `,600` as bytes.
pub open spec fn lit_daylen() -> Seq<u8> {
    seq![44u8, 54u8, 48u8, 48u8]
}

/// The protocol text `D,` as bytes.
pub open spec fn lit_d_pre() -> Seq<u8> {
    seq![68u8, 44u8]
}

/// The protocol text ` has left` as bytes.
pub open spec fn lit_left() -> Seq<u8> {
    seq![32u8, 104u8, 97u8, 115u8, 32u8, 108u8, 101u8, 102u8, 116u8]
}

/// The protocol text `B,` as bytes.
pub open spec fn lit_b_pre() -> Seq<u8> {
    seq![66u8, 44u8]
}

/// The protocol text `T,[` as bytes.
pub open spec fn lit_chat_pre() -> Seq<u8> {
    seq![84u8, 44u8, 91u8]
}

/// The protocol text `] ` as bytes.
pub open spec fn lit_chat_sep() -> Seq<u8> {
    seq![93u8, 32u8]
}

/// The protocol text ` is now ` as bytes.
pub open spec fn lit_is_now() -> Seq<u8> {
    seq![32u8, 105u8, 115u8, 32u8, 110u8, 111u8, 119u8, 32u8]
}

/// The protocol text `T,You are ` as bytes.
pub open spec fn lit_you_are() -> Seq<u8> {
    seq![84u8, 44u8, 89u8, 111u8, 117u8, 32u8, 97u8, 114u8, 101u8, 32u8]
}

/// The protocol text `T,Unknown command: ` as bytes.
pub open spec fn lit_unknown() -> Seq<u8> {
    seq![84u8, 44u8, 85u8, 110u8, 107u8, 110u8, 111u8, 119u8, 110u8, 32u8, 99u8, 111u8, 109u8, 109u8, 97u8, 110u8, 100u8, 58u8, 32u8]
}

/// The protocol text `[` as bytes.
pub open spec fn lit_obracket() -> Seq<u8> {
    seq![91u8]
}

/// The protocol text `]` as bytes.
pub open spec fn lit_cbracket() -> Seq<u8> {
    seq![93u8]
}

/// The protocol text `/nick` as bytes.
pub open spec fn lit_nick_cmd() -> Seq<u8> {
    seq![47u8, 110u8, 105u8, 99u8, 107u8]
}

/// The protocol text `2` as bytes.
pub open spec fn lit_two() -> Seq<u8> {
    seq![50u8]
}

/// The protocol text `V` as bytes.
pub open spec fn lit_vtag() -> Seq<u8> {
    seq![86u8]
}

/// The protocol text `C` as bytes.
pub open spec fn lit_ctag() -> Seq<u8> {
    seq![67u8]
}

/// The protocol text `P` as bytes.
pub open spec fn lit_ptag() -> Seq<u8> {
    seq![80u8]
}

/// The protocol text `B` as bytes.
pub open spec fn lit_btag() -> Seq<u8> {
    seq![66u8]
}

/// The protocol text `T` as bytes.
pub open spec fn lit_ttag() -> Seq<u8> {
    seq![84u8]
}

/// The protocol text `,` as bytes.
pub open spec fn lit_comma() -> Seq<u8> {
    seq![44u8]
}

/// Appends the protocol text `person`.
pub fn push_person(out: &mut Vec<u8>)
    ensures
        final(out)@ == old(out)@ + lit_person(),
{
    let lit: [u8; 6] = [112u8, 101u8, 114u8, 115u8, 111u8, 110u8];
    push_bytes(out, &lit);
    proof {
        assert(lit@ =~= lit_person());
    }
}

/// Appends the protocol text `N,`.
pub fn push_n_pre(out: &mut Vec<u8>)
    ensures
        final(out)@ == old(out)@ + lit_n_pre(),
{
    let lit: [u8; 2] = [78u8, 44u8];
    push_bytes(out, &lit);
    proof {
        assert(lit@ =~= lit_n_pre());
    }
}

/// Appends the protocol text `T,`.
pub fn push_t_pre(out: &mut Vec<u8>)
    ensures
        final(out)@ == old(out)@ + lit_t_pre(),
{
    let lit: [u8; 2] = [84u8, 44u8];
    push_bytes(out, &lit);
    proof {
        assert(lit@ =~= lit_t_pre());
    }
}

/// Appends the protocol text ` has joined`.
pub fn push_joined(out: &mut Vec<u8>)
    ensures
        final(out)@ == old(out)@ + lit_joined(),
{
    let lit: [u8; 11] = [32u8, 104u8, 97u8, 115u8, 32u8, 106u8, 111u8, 105u8, 110u8, 101u8, 100u8];
    push_bytes(out, &lit);
    proof {
        assert(lit@ =~= lit_joined());
    }
}

/// Appends the protocol text `,0,0,0,0,0`.
pub fn push_zeros(out: &mut Vec<u8>)
    ensures
        final(out)@ == old(out)@ + lit_zeros(),
{
    let lit: [u8; 10] = [44u8, 48u8, 44u8, 48u8, 44u8, 48u8, 44u8, 48u8, 44u8, 48u8];
    push_bytes(out, &lit);
    proof {
        assert(lit@ =~= lit_zeros());
    }
}

/// Appends the protocol text `P,`.
pub fn push_p_pre(out: &mut Vec<u8>)
    ensures
        final(out)@ == old(out)@ + lit_p_pre(),
{
    let lit: [u8; 2] = [80u8, 44u8];
    push_bytes(out, &lit);
    proof {
        assert(lit@ =~= lit_p_pre());
    }
}

/// Appends the protocol text `U,`.
pub fn push_u_pre(out: &mut Vec<u8>)
    ensures
        final(out)@ == old(out)@ + lit_u_pre(),
{
    let lit: [u8; 2] = [85u8, 44u8];
    push_bytes(out, &lit);
    proof {
        assert(lit@ =~= lit_u_pre());
    }
}

/// Appends the protocol text `E,`.
pub fn push_e_pre(out: &mut Vec<u8>)
    ensures
        final(out)@ == old(out)@ + lit_e_pre(),
{
    let lit: [u8; 2] = [69u8, 44u8];
    push_bytes(out, &lit);
    proof {
        assert(lit@ =~= lit_e_pre());
    }
}

/// Appends the protocol text `,600`.
pub fn push_daylen(out: &mut Vec<u8>)
    ensures
        final(out)@ == old(out)@ + lit_daylen(),
{
    let lit: [u8; 4] = [44u8, 54u8, 48u8, 48u8];
    push_bytes(out, &lit);
    proof {
        assert(lit@ =~= lit_daylen());
    }
}

/// Appends the protocol text `D,`.
pub fn push_d_pre(out: &mut Vec<u8>)
    ensures
        final(out)@ == old(out)@ + lit_d_pre(),
{
    let lit: [u8; 2] = [68u8, 44u8];
    push_bytes(out, &lit);
    proof {
        assert(lit@ =~= lit_d_pre());
    }
}

/// Appends the protocol text ` has left`.
pub fn push_left(out: &mut Vec<u8>)
    ensures
        final(out)@ == old(out)@ + lit_left(),
{
    let lit: [u8; 9] = [32u8, 104u8, 97u8, 115u8, 32u8, 108u8, 101u8, 102u8, 116u8];
    push_bytes(out, &lit);
    proof {
        assert(lit@ =~= lit_left());
    }
}

/// Appends the protocol text `B,`.
pub fn push_b_pre(out: &mut Vec<u8>)
    ensures
        final(out)@ == old(out)@ + lit_b_pre(),
{
    let lit: [u8; 2] = [66u8, 44u8];
    push_bytes(out, &lit);
    proof {
        assert(lit@ =~= lit_b_pre());
    }
}

/// Appends the protocol text `T,[`.
pub fn push_chat_pre(out: &mut Vec<u8>)
    ensures
        final(out)@ == old(out)@ + lit_chat_pre(),
{
    let lit: [u8; 3] = [84u8, 44u8, 91u8];
    push_bytes(out, &lit);
    proof {
        assert(lit@ =~= lit_chat_pre());
    }
}

/// Appends the protocol text `] `.
pub fn push_chat_sep(out: &mut Vec<u8>)
    ensures
        final(out)@ == old(out)@ + lit_chat_sep(),
{
    let lit: [u8; 2] = [93u8, 32u8];
    push_bytes(out, &lit);
    proof {
        assert(lit@ =~= lit_chat_sep());
    }
}

/// Appends the protocol text ` is now `.
pub fn push_is_now(out: &mut Vec<u8>)
    ensures
        final(out)@ == old(out)@ + lit_is_now(),
{
    let lit: [u8; 8] = [32u8, 105u8, 115u8, 32u8, 110u8, 111u8, 119u8, 32u8];
    push_bytes(out, &lit);
    proof {
        assert(lit@ =~= lit_is_now());
    }
}

/// Appends the protocol text `T,You are `.
pub fn push_you_are(out: &mut Vec<u8>)
    ensures
        final(out)@ == old(out)@ + lit_you_are(),
{
    let lit: [u8; 10] = [84u8, 44u8, 89u8, 111u8, 117u8, 32u8, 97u8, 114u8, 101u8, 32u8];
    push_bytes(out, &lit);
    proof {
        assert(lit@ =~= lit_you_are());
    }
}

/// Appends the protocol text `T,Unknown command: `.
pub fn push_unknown(out: &mut Vec<u8>)
    ensures
        final(out)@ == old(out)@ + lit_unknown(),
{
    let lit: [u8; 19] = [84u8, 44u8, 85u8, 110u8, 107u8, 110u8, 111u8, 119u8, 110u8, 32u8, 99u8, 111u8, 109u8, 109u8, 97u8, 110u8, 100u8, 58u8, 32u8];
    push_bytes(out, &lit);
    proof {
        assert(lit@ =~= lit_unknown());
    }
}

/// Appends the protocol text `[`.
pub fn push_obracket(out: &mut Vec<u8>)
    ensures
        final(out)@ == old(out)@ + lit_obracket(),
{
    let lit: [u8; 1] = [91u8];
    push_bytes(out, &lit);
    proof {
        assert(lit@ =~= lit_obracket());
    }
}

/// Appends the protocol text `]`.
pub fn push_cbracket(out: &mut Vec<u8>)
    ensures
        final(out)@ == old(out)@ + lit_cbracket(),
{
    let lit: [u8; 1] = [93u8];
    push_bytes(out, &lit);
    proof {
        assert(lit@ =~= lit_cbracket());
    }
}

/// Appends the protocol text `/nick`.
pub fn push_nick_cmd(out: &mut Vec<u8>)
    ensures
        final(out)@ == old(out)@ + lit_nick_cmd(),
{
    let lit: [u8; 5] = [47u8, 110u8, 105u8, 99u8, 107u8];
    push_bytes(out, &lit);
    proof {
        assert(lit@ =~= lit_nick_cmd());
    }
}

/// Appends the protocol text `2`.
pub fn push_two(out: &mut Vec<u8>)
    ensures
        final(out)@ == old(out)@ + lit_two(),
{
    let lit: [u8; 1] = [50u8];
    push_bytes(out, &lit);
    proof {
        assert(lit@ =~= lit_two());
    }
}

/// Appends the protocol text `V`.
pub fn push_vtag(out: &mut Vec<u8>)
    ensures
        final(out)@ == old(out)@ + lit_vtag(),
{
    let lit: [u8; 1] = [86u8];
    push_bytes(out, &lit);
    proof {
        assert(lit@ =~= lit_vtag());
    }
}

/// Appends the protocol text `C`.
pub fn push_ctag(out: &mut Vec<u8>)
    ensures
        final(out)@ == old(out)@ + lit_ctag(),
{
    let lit: [u8; 1] = [67u8];
    push_bytes(out, &lit);
    proof {
        assert(lit@ =~= lit_ctag());
    }
}

/// Appends the protocol text `P`.
pub fn push_ptag(out: &mut Vec<u8>)
    ensures
        final(out)@ == old(out)@ + lit_ptag(),
{
    let lit: [u8; 1] = [80u8];
    push_bytes(out, &lit);
    proof {
        assert(lit@ =~= lit_ptag());
    }
}

/// Appends the protocol text `B`.
pub fn push_btag(out: &mut Vec<u8>)
    ensures
        final(out)@ == old(out)@ + lit_btag(),
{
    let lit: [u8; 1] = [66u8];
    push_bytes(out, &lit);
    proof {
        assert(lit@ =~= lit_btag());
    }
}

/// Appends the protocol text `T`.
pub fn push_ttag(out: &mut Vec<u8>)
    ensures
        final(out)@ == old(out)@ + lit_ttag(),
{
    let lit: [u8; 1] = [84u8];
    push_bytes(out, &lit);
    proof {
        assert(lit@ =~= lit_ttag());
    }
}

/// Appends the protocol text `,`.
pub fn push_comma(out: &mut Vec<u8>)
    ensures
        final(out)@ == old(out)@ + lit_comma(),
{
    let lit: [u8; 1] = [44u8];
    push_bytes(out, &lit);
    proof {
        assert(lit@ =~= lit_comma());
    }
}

// ---------------------------------------------------------------------------
// Outbound payload forms
// ---------------------------------------------------------------------------

/// The default nickname of a fresh session: `person<id>`.
pub open spec fn default_nick(id: u64) -> Seq<u8> {
    lit_person() + dec_digits(id as nat)
}

/// `N,<id>,<nick>`: a name announcement.
pub open spec fn msg_n(id: u64, nick: Seq<u8>) -> Seq<u8> {
    lit_n_pre() + dec_digits(id as nat) + lit_comma() + nick
}

/// `T,<nick> has joined`: the join notice.
pub open spec fn msg_join(nick: Seq<u8>) -> Seq<u8> {
    lit_t_pre() + nick + lit_joined()
}

/// `P,<id>,0,0,0,0,0`: the zero position of a fresh session.
pub open spec fn msg_p_zero(id: u64) -> Seq<u8> {
    lit_p_pre() + dec_digits(id as nat) + lit_zeros()
}

/// `U,<id>,0,0,0,0,0`: self-identification for the joiner.
pub open spec fn msg_u_zero(id: u64) -> Seq<u8> {
    lit_u_pre() + dec_digits(id as nat) + lit_zeros()
}

/// `E,<daySeconds>,600`: the time sync sent to the joiner.
pub open spec fn msg_e(time: u64) -> Seq<u8> {
    lit_e_pre() + dec_digits((time / 20) as nat) + lit_daylen()
}

/// `P,<id>,<x>,<y>,<z>,<rx>,<ry>`: a position broadcast.
pub open spec fn msg_p(id: u64, x: Seq<u8>, y: Seq<u8>, z: Seq<u8>, rx: Seq<u8>, ry: Seq<u8>) -> Seq<u8> {
    lit_p_pre() + dec_digits(id as nat) + lit_comma() + x + lit_comma() + y + lit_comma() + z
        + lit_comma() + rx + lit_comma() + ry
}

/// `D,<id>`: a session left.
pub open spec fn msg_d(id: u64) -> Seq<u8> {
    lit_d_pre() + dec_digits(id as nat)
}

/// `T,<nick> has left`: the leave notice.
pub open spec fn msg_left(nick: Seq<u8>) -> Seq<u8> {
    lit_t_pre() + nick + lit_left()
}

/// `B,<x>,<y>,<z>,<w>`: a block edit broadcast.
pub open spec fn msg_b(x: int, y: int, z: int, w: u8) -> Seq<u8> {
    lit_b_pre() + dec_int(x) + lit_comma() + dec_int(y) + lit_comma() + dec_int(z) + lit_comma()
        + dec_digits(w as nat)
}

/// `T,[<nick>] <text>`: a chat line.
pub open spec fn msg_chat(nick: Seq<u8>, text: Seq<u8>) -> Seq<u8> {
    lit_chat_pre() + nick + lit_chat_sep() + text
}

/// `T,<old> is now <new>`: the rename notice.
pub open spec fn msg_rename(old_nick: Seq<u8>, new_nick: Seq<u8>) -> Seq<u8> {
    lit_t_pre() + old_nick + lit_is_now() + new_nick
}

/// `T,You are <nick>`: the reply to a bare nickname query.
pub open spec fn msg_you_are(nick: Seq<u8>) -> Seq<u8> {
    lit_you_are() + nick
}

/// `T,Unknown command: <cmd>[<nargs>]`: the reply to an unrecognized
/// command, naming it and its argument count.
pub open spec fn msg_unknown(cmd: Seq<u8>, nargs: nat) -> Seq<u8> {
    lit_unknown() + cmd + lit_obracket() + dec_digits(nargs) + lit_cbracket()
}

// ---------------------------------------------------------------------------
// Builders
// ---------------------------------------------------------------------------

/// Builds the default nickname of a fresh session.
pub fn build_default_nick(id: u64) -> (r: Vec<u8>)
    ensures
        r@ == default_nick(id),
{
    let mut out: Vec<u8> = Vec::new();
    push_person(&mut out);
    push_u64_dec(&mut out, id);
    out
}

/// Builds `N,<id>,<nick>`.
pub fn build_n(id: u64, nick: &[u8]) -> (r: Vec<u8>)
    ensures
        r@ == msg_n(id, nick@),
{
    let mut out: Vec<u8> = Vec::new();
    push_n_pre(&mut out);
    push_u64_dec(&mut out, id);
    push_comma(&mut out);
    push_bytes(&mut out, nick);
    proof {
        assert(out@ =~= msg_n(id, nick@));
    }
    out
}

/// Builds `T,<nick> has joined`.
pub fn build_join(nick: &[u8]) -> (r: Vec<u8>)
    ensures
        r@ == msg_join(nick@),
{
    let mut out: Vec<u8> = Vec::new();
    push_t_pre(&mut out);
    push_bytes(&mut out, nick);
    push_joined(&mut out);
    proof {
        assert(out@ =~= msg_join(nick@));
    }
    out
}

/// Builds `P,<id>,0,0,0,0,0`.
pub fn build_p_zero(id: u64) -> (r: Vec<u8>)
    ensures
        r@ == msg_p_zero(id),
{
    let mut out: Vec<u8> = Vec::new();
    push_p_pre(&mut out);
    push_u64_dec(&mut out, id);
    push_zeros(&mut out);
    proof {
        assert(out@ =~= msg_p_zero(id));
    }
    out
}

/// Builds `U,<id>,0,0,0,0,0`.
pub fn build_u_zero(id: u64) -> (r: Vec<u8>)
    ensures
        r@ == msg_u_zero(id),
{
    let mut out: Vec<u8> = Vec::new();
    push_u_pre(&mut out);
    push_u64_dec(&mut out, id);
    push_zeros(&mut out);
    proof {
        assert(out@ =~= msg_u_zero(id));
    }
    out
}

/// Builds `E,<daySeconds>,600`.
pub fn build_e(time: u64) -> (r: Vec<u8>)
    ensures
        r@ == msg_e(time),
{
    let mut out: Vec<u8> = Vec::new();
    push_e_pre(&mut out);
    push_u64_dec(&mut out, time / 20);
    push_daylen(&mut out);
    proof {
        assert(out@ =~= msg_e(time));
    }
    out
}

/// Builds `P,<id>,<x>,<y>,<z>,<rx>,<ry>`.
pub fn build_p(id: u64, x: &[u8], y: &[u8], z: &[u8], rx: &[u8], ry: &[u8]) -> (r: Vec<u8>)
    ensures
        r@ == msg_p(id, x@, y@, z@, rx@, ry@),
{
    let mut out: Vec<u8> = Vec::new();
    push_p_pre(&mut out);
    push_u64_dec(&mut out, id);
    push_comma(&mut out);
    push_bytes(&mut out, x);
    push_comma(&mut out);
    push_bytes(&mut out, y);
    push_comma(&mut out);
    push_bytes(&mut out, z);
    push_comma(&mut out);
    push_bytes(&mut out, rx);
    push_comma(&mut out);
    push_bytes(&mut out, ry);
    proof {
        assert(out@ =~= msg_p(id, x@, y@, z@, rx@, ry@));
    }
    out
}

/// Builds `D,<id>`.
pub fn build_d(id: u64) -> (r: Vec<u8>)
    ensures
        r@ == msg_d(id),
{
    let mut out: Vec<u8> = Vec::new();
    push_d_pre(&mut out);
    push_u64_dec(&mut out, id);
    out
}

/// Builds `T,<nick> has left`.
pub fn build_left(nick: &[u8]) -> (r: Vec<u8>)
    ensures
        r@ == msg_left(nick@),
{
    let mut out: Vec<u8> = Vec::new();
    push_t_pre(&mut out);
    push_bytes(&mut out, nick);
    push_left(&mut out);
    proof {
        assert(out@ =~= msg_left(nick@));
    }
    out
}

/// Builds `B,<x>,<y>,<z>,<w>`.
pub fn build_b(x: i64, y: i64, z: i64, w: u8) -> (r: Vec<u8>)
    ensures
        r@ == msg_b(x as int, y as int, z as int, w),
{
    let mut out: Vec<u8> = Vec::new();
    push_b_pre(&mut out);
    push_i64_dec(&mut out, x);
    push_comma(&mut out);
    push_i64_dec(&mut out, y);
    push_comma(&mut out);
    push_i64_dec(&mut out, z);
    push_comma(&mut out);
    push_u64_dec(&mut out, w as u64);
    proof {
        assert(out@ =~= msg_b(x as int, y as int, z as int, w));
    }
    out
}

/// Builds `T,[<nick>] <text>`.
pub fn build_chat(nick: &[u8], text: &[u8]) -> (r: Vec<u8>)
    ensures
        r@ == msg_chat(nick@, text@),
{
    let mut out: Vec<u8> = Vec::new();
    push_chat_pre(&mut out);
    push_bytes(&mut out, nick);
    push_chat_sep(&mut out);
    push_bytes(&mut out, text);
    proof {
        assert(out@ =~= msg_chat(nick@, text@));
    }
    out
}

/// Builds `T,<old> is now <new>`.
pub fn build_rename(old_nick: &[u8], new_nick: &[u8]) -> (r: Vec<u8>)
    ensures
        r@ == msg_rename(old_nick@, new_nick@),
{
    let mut out: Vec<u8> = Vec::new();
    push_t_pre(&mut out);
    push_bytes(&mut out, old_nick);
    push_is_now(&mut out);
    push_bytes(&mut out, new_nick);
    proof {
        assert(out@ =~= msg_rename(old_nick@, new_nick@));
    }
    out
}

/// Builds `T,You are <nick>`.
pub fn build_you_are(nick: &[u8]) -> (r: Vec<u8>)
    ensures
        r@ == msg_you_are(nick@),
{
    let mut out: Vec<u8> = Vec::new();
    push_you_are(&mut out);
    push_bytes(&mut out, nick);
    proof {
        assert(out@ =~= msg_you_are(nick@));
    }
    out
}

/// Builds `T,Unknown command: <cmd>[<nargs>]`.
pub fn build_unknown(cmd: &[u8], nargs: u64) -> (r: Vec<u8>)
    ensures
        r@ == msg_unknown(cmd@, nargs as nat),
{
    let mut out: Vec<u8> = Vec::new();
    push_unknown(&mut out);
    push_bytes(&mut out, cmd);
    push_obracket(&mut out);
    push_u64_dec(&mut out, nargs);
    push_cbracket(&mut out);
    proof {
        assert(out@ =~= msg_unknown(cmd@, nargs as nat));
    }
    out
}

} // verus!
