use crate::assoc::{find_pair, keys_unique, lemma_find_at, lemma_find_char, lemma_find_push,
    lemma_find_remove, lemma_find_update};
use crate::block::Block;
use crate::coords::Coords;
use crate::deflate::deflate_of;
use crate::protocol::{build_b, build_chat, build_d, build_default_nick, build_e, build_join,
    build_left, build_n, build_p, build_p_zero, build_rename, build_u_zero, build_unknown,
    build_you_are, default_nick, lit_ctag, lit_nick_cmd, lit_two, msg_b, msg_chat, msg_d, msg_e,
    lit_btag, lit_ptag, lit_ttag, lit_vtag, msg_join, msg_left, msg_n, msg_p, msg_p_zero, msg_rename, msg_u_zero, msg_unknown,
    msg_you_are, push_ctag};
use crate::wire::{be8_i64, int_literal_value, is_digits, is_int_literal, digits_value, push_bytes,
    push_be_i64, split_bytes, split_seq, views_of, parse_i64, parse_u64};
use crate::worldgen;
use crate::worldgen::{ColumnHeights, CHUNK_COORD_LIMIT, WORLD_COORD_LIMIT};
use crate::worldmap::WorldMap;
use vstd::prelude::*;

verus! {

/// Per-connection session state: a display nickname and the last
/// reported position and orientation, kept in the textual form the
/// client sent (the session layer only echoes them).
pub struct Player {
    pub nick: Vec<u8>,
    pub x: Vec<u8>,
    pub y: Vec<u8>,
    pub z: Vec<u8>,
    pub rx: Vec<u8>,
    pub ry: Vec<u8>,
}

/// Why an inbound payload failed its connection. The connection is
/// removed; no other session is affected.
#[derive(Copy, Clone, Debug, PartialEq, Eq, Structural)]
pub enum ProtocolError {
    /// A message too short to carry its mandatory fields.
    Malformed,
    /// A comma-separated message with the wrong number of fields.
    WrongFieldCount,
    /// A numeric field that does not parse, or does not fit the
    /// supported coordinate range.
    BadNumber,
    /// A version handshake naming an unsupported version.
    BadVersion,
    /// An unrecognized message tag.
    UnknownMessage,
}

/// What a dispatched message asks of the caller: deliver the given
/// payloads to the given connections, or generate terrain for a chunk
/// (hand the column heights to `supply_chunk`) and dispatch the same
/// message again.
pub enum Dispatch {
    Done(Vec<(u64, Vec<u8>)>),
    NeedChunk(Coords),
}

/// The session layer: the connected players, keyed by connection
/// identifier, over the world store.
pub struct Server {
    players: Vec<(u64, Player)>,
    map: WorldMap,
}

// ---------------------------------------------------------------------------
// Frame bookkeeping
// ---------------------------------------------------------------------------

/// The views of outbound frames: connection id and payload bytes.
pub open spec fn frame_views(v: Seq<(u64, Vec<u8>)>) -> Seq<(u64, Seq<u8>)>
    decreases v.len(),
{
    if v.len() == 0 {
        Seq::empty()
    } else {
        seq![(v[0].0, v[0].1@)] + frame_views(v.skip(1))
    }
}

/// Frame views map the frames one to one.
pub proof fn lemma_frame_views_index(v: Seq<(u64, Vec<u8>)>)
    ensures
        frame_views(v).len() == v.len(),
        forall|k: int|
            #![trigger frame_views(v)[k]]
            0 <= k < v.len() ==> frame_views(v)[k] == (v[k].0, v[k].1@),
    decreases v.len(),
{
    if v.len() > 0 {
        lemma_frame_views_index(v.skip(1));
        assert forall|k: int|
            #![trigger frame_views(v)[k]]
            0 <= k < v.len() implies frame_views(v)[k] == (v[k].0, v[k].1@) by {
            if k > 0 {
                assert(v.skip(1)[k - 1] == v[k]);
            }
        }
    }
}

/// One payload addressed to one connection, once per payload in order.
pub open spec fn to_id(id: u64, payloads: Seq<Seq<u8>>) -> Seq<(u64, Seq<u8>)>
    decreases payloads.len(),
{
    if payloads.len() == 0 {
        Seq::empty()
    } else {
        seq![(id, payloads[0])] + to_id(id, payloads.skip(1))
    }
}

/// `to_id` addresses the payloads one to one.
pub proof fn lemma_to_id_index(id: u64, payloads: Seq<Seq<u8>>)
    ensures
        to_id(id, payloads).len() == payloads.len(),
        forall|k: int|
            #![trigger to_id(id, payloads)[k]]
            0 <= k < payloads.len() ==> to_id(id, payloads)[k] == (id, payloads[k]),
    decreases payloads.len(),
{
    if payloads.len() > 0 {
        lemma_to_id_index(id, payloads.skip(1));
        assert forall|k: int|
            #![trigger to_id(id, payloads)[k]]
            0 <= k < payloads.len() implies to_id(id, payloads)[k] == (
            id,
            payloads[k],
        ) by {
            if k > 0 {
                assert(payloads.skip(1)[k - 1] == payloads[k]);
            }
        }
    }
}

/// The payloads fanned out to every player in order, skipping the
/// excluded connection if one is given.
pub open spec fn fan_out(
    players: Seq<(u64, Player)>,
    ex: Option<u64>,
    payloads: Seq<Seq<u8>>,
) -> Seq<(u64, Seq<u8>)>
    decreases players.len(),
{
    if players.len() == 0 {
        Seq::empty()
    } else {
        (if ex == Some(players[0].0) {
            Seq::empty()
        } else {
            to_id(players[0].0, payloads)
        }) + fan_out(players.skip(1), ex, payloads)
    }
}

/// Fanning out to one more player appends that player's batch.
pub proof fn lemma_fan_out_push(
    players: Seq<(u64, Player)>,
    e: (u64, Player),
    ex: Option<u64>,
    payloads: Seq<Seq<u8>>,
)
    ensures
        fan_out(players.push(e), ex, payloads) == fan_out(players, ex, payloads) + (if ex
            == Some(e.0) {
            Seq::<(u64, Seq<u8>)>::empty()
        } else {
            to_id(e.0, payloads)
        }),
    decreases players.len(),
{
    let tail = if ex == Some(e.0) {
        Seq::<(u64, Seq<u8>)>::empty()
    } else {
        to_id(e.0, payloads)
    };
    if players.len() == 0 {
        assert(players.push(e)[0] == e);
        assert(players.push(e).skip(1) =~= players);
        assert(fan_out(players.push(e), ex, payloads) =~= fan_out(players, ex, payloads) + tail);
    } else {
        assert(players.push(e)[0] == players[0]);
        assert(players.push(e).skip(1) =~= players.skip(1).push(e));
        lemma_fan_out_push(players.skip(1), e, ex, payloads);
        assert(fan_out(players.push(e), ex, payloads) =~= fan_out(players, ex, payloads) + tail);
    }
}

/// The roster sent to a joiner: for every existing player, in order,
/// that player's position and name.
pub open spec fn roster_frames(players: Seq<(u64, Player)>, to: u64) -> Seq<(u64, Seq<u8>)>
    decreases players.len(),
{
    if players.len() == 0 {
        Seq::empty()
    } else {
        seq![
            (to, msg_p(players[0].0, players[0].1.x@, players[0].1.y@, players[0].1.z@,
            players[0].1.rx@, players[0].1.ry@)),
            (to, msg_n(players[0].0, players[0].1.nick@)),
        ] + roster_frames(players.skip(1), to)
    }
}

/// The roster grows by one pair per player.
pub proof fn lemma_roster_push(players: Seq<(u64, Player)>, e: (u64, Player), to: u64)
    ensures
        roster_frames(players.push(e), to) == roster_frames(players, to) + seq![
            (to, msg_p(e.0, e.1.x@, e.1.y@, e.1.z@, e.1.rx@, e.1.ry@)),
            (to, msg_n(e.0, e.1.nick@)),
        ],
    decreases players.len(),
{
    if players.len() == 0 {
        assert(players.push(e)[0] == e);
        assert(players.push(e).skip(1) =~= players);
        assert(roster_frames(players.push(e), to) =~= roster_frames(players, to) + seq![
            (to, msg_p(e.0, e.1.x@, e.1.y@, e.1.z@, e.1.rx@, e.1.ry@)),
            (to, msg_n(e.0, e.1.nick@)),
        ]);
    } else {
        assert(players.push(e)[0] == players[0]);
        assert(players.push(e).skip(1) =~= players.skip(1).push(e));
        lemma_roster_push(players.skip(1), e, to);
        assert(roster_frames(players.push(e), to) =~= roster_frames(players, to) + seq![
            (to, msg_p(e.0, e.1.x@, e.1.y@, e.1.z@, e.1.rx@, e.1.ry@)),
            (to, msg_n(e.0, e.1.nick@)),
        ]);
    }
}

// ---------------------------------------------------------------------------
// Inbound classification
// ---------------------------------------------------------------------------

/// The whitespace tokens of a command line: the pieces between spaces,
/// empty ones dropped.
pub open spec fn nonempty_pred() -> spec_fn(Seq<u8>) -> bool {
    |t: Seq<u8>| t.len() != 0
}

pub open spec fn tokens_of(s: Seq<u8>) -> Seq<Seq<u8>> {
    split_seq(s, 32).filter(nonempty_pred())
}

/// The digits of a position field, after any leading minus sign.
pub open spec fn float_body(s: Seq<u8>) -> Seq<u8> {
    if s.len() > 0 && s[0] == 45 {
        s.skip(1)
    } else {
        s
    }
}

/// Position `k` splits `t` into a digit run, a dot, and a digit run.
pub open spec fn dotted_at(t: Seq<u8>, k: int) -> bool {
    0 <= k < t.len() && t[k] == 46 && is_digits(t.take(k)) && is_digits(t.skip(k + 1))
}

/// A textual position field: an optional minus sign, digits, and at
/// most one fractional part.
pub open spec fn is_float_lit(s: Seq<u8>) -> bool {
    is_digits(float_body(s)) || exists|k: int| dotted_at(float_body(s), k)
}

/// An integer field within the coordinate range the world accepts.
pub open spec fn valid_coord_field(s: Seq<u8>, lim: int) -> bool {
    is_int_literal(s) && -lim <= int_literal_value(s) <= lim
}

/// The result carries exactly these outbound frames.
pub open spec fn is_done(r: Result<Dispatch, ProtocolError>, fs: Seq<(u64, Seq<u8>)>) -> bool {
    match r {
        Ok(d) => match d {
            Dispatch::Done(v) => frame_views(v@) == fs,
            Dispatch::NeedChunk(_) => false,
        },
        Err(_) => false,
    }
}

/// The result asks the caller to generate this chunk's terrain.
pub open spec fn is_need(r: Result<Dispatch, ProtocolError>, cc: Coords) -> bool {
    match r {
        Ok(d) => match d {
            Dispatch::Done(_) => false,
            Dispatch::NeedChunk(c) => c == cc,
        },
        Err(_) => false,
    }
}

/// The result is this protocol error.
pub open spec fn is_err(r: Result<Dispatch, ProtocolError>, e: ProtocolError) -> bool {
    match r {
        Ok(_) => false,
        Err(got) => got == e,
    }
}

/// The ids of a block sequence, as serialization writes them.
pub open spec fn ids_of(blocks: Seq<Block>) -> Seq<u8> {
    blocks.map_values(|b: Block| b.matter)
}

/// The raw chunk reply: a `C` tag, the chunk coordinate as three
/// big-endian 64-bit values, then the compressed block ids.
pub open spec fn chunk_reply(cc: Coords, ids: Seq<u8>) -> Seq<u8> {
    lit_ctag() + be8_i64(cc.0 as int) + be8_i64(cc.1 as int) + be8_i64(cc.2 as int) + deflate_of(
        ids,
    )
}

// ---------------------------------------------------------------------------
// Executable helpers
// ---------------------------------------------------------------------------

/// True when the two byte strings are equal.
pub fn bytes_eq(a: &[u8], b: &[u8]) -> (r: bool)
    ensures
        r == (a@ == b@),
{
    if a.len() != b.len() {
        return false;
    }
    let mut i: usize = 0;
    while i < a.len()
        invariant
            a@.len() == b@.len(),
            0 <= i <= a@.len(),
            forall|k: int| 0 <= k < i ==> a@[k] == b@[k],
        decreases a@.len() - i,
    {
        if a[i] != b[i] {
            proof {
                assert(a@[i as int] != b@[i as int]);
            }
            return false;
        }
        i = i + 1;
    }
    proof {
        assert(a@ =~= b@);
    }
    true
}

/// A fresh copy of a byte string.
pub fn copy_bytes(s: &[u8]) -> (r: Vec<u8>)
    ensures
        r@ == s@,
{
    let mut out: Vec<u8> = Vec::new();
    push_bytes(&mut out, s);
    out
}

/// The byte string `0`: the zero position of a fresh session.
fn build_zero() -> (r: Vec<u8>)
    ensures
        r@ == seq![48u8],
{
    let mut out: Vec<u8> = Vec::new();
    out.push(48);
    proof {
        assert(out@ =~= seq![48u8]);
    }
    out
}

/// True when the given connection is the excluded one.
fn excluded(ex: Option<u64>, pid: u64) -> (r: bool)
    ensures
        r == (ex == Some(pid)),
{
    match ex {
        Some(e) => e == pid,
        None => false,
    }
}

/// Appends every payload for every player but the excluded one, in
/// player order, to `out`.
pub fn fan_out_exec(
    players: &Vec<(u64, Player)>,
    ex: Option<u64>,
    payloads: &Vec<Vec<u8>>,
    out: &mut Vec<(u64, Vec<u8>)>,
)
    ensures
        frame_views(final(out)@) == frame_views(old(out)@) + fan_out(
            players@,
            ex,
            views_of(payloads@),
        ),
{
    let ghost pls = views_of(payloads@);
    let mut i: usize = 0;
    proof {
        assert(players@.take(0) =~= Seq::<(u64, Player)>::empty());
        assert(frame_views(out@) =~= frame_views(out@) + fan_out(players@.take(0), ex, pls));
    }
    while i < players.len()
        invariant
            0 <= i <= players@.len(),
            pls == views_of(payloads@),
            frame_views(out@) == frame_views(old(out)@) + fan_out(players@.take(i as int), ex, pls),
        decreases players@.len() - i,
    {
        let pid = players[i].0;
        if !excluded(ex, pid) {
            let ghost base = out@;
            let mut j: usize = 0;
            proof {
                assert(to_id(pid, pls.take(0)) =~= Seq::<(u64, Seq<u8>)>::empty());
                assert(frame_views(out@) =~= frame_views(base) + to_id(pid, pls.take(0)));
            }
            while j < payloads.len()
                invariant
                    0 <= j <= payloads@.len(),
                    pls == views_of(payloads@),
                    frame_views(out@) == frame_views(base) + to_id(pid, pls.take(j as int)),
                decreases payloads@.len() - j,
            {
                let payload = copy_bytes(payloads[j].as_slice());
                let ghost prior = out@;
                out.push((pid, payload));
                proof {
                    lemma_frame_views_index(prior);
                    lemma_frame_views_index(out@);
                    lemma_frame_views_index(base);
                    lemma_to_id_index(pid, pls.take(j as int));
                    lemma_to_id_index(pid, pls.take(j + 1));
                    assert(pls[j as int] == payloads@[j as int]@);
                    assert(frame_views(out@) =~= frame_views(prior) + seq![(pid, pls[j as int])]);
                    assert(to_id(pid, pls.take(j + 1)) =~= to_id(pid, pls.take(j as int)).push(
                        (pid, pls[j as int]),
                    ));
                    assert(frame_views(out@) =~= frame_views(base) + to_id(pid, pls.take(j + 1)));
                }
                j = j + 1;
            }
            proof {
                assert(pls.take(payloads@.len() as int) =~= pls);
            }
        }
        proof {
            lemma_fan_out_push(players@.take(i as int), players@[i as int], ex, pls);
            assert(players@.take(i + 1) =~= players@.take(i as int).push(players@[i as int]));
            assert(frame_views(out@) =~= frame_views(old(out)@) + fan_out(
                players@.take(i + 1),
                ex,
                pls,
            ));
        }
        i = i + 1;
    }
    proof {
        assert(players@.take(players@.len() as int) =~= players@);
    }
}

/// Splitting on push keeps the filtered tokens in step.
proof fn lemma_filter_push(s: Seq<Seq<u8>>, x: Seq<u8>)
    ensures
        s.push(x).filter(nonempty_pred()) == if x.len() != 0 {
            s.filter(nonempty_pred()).push(x)
        } else {
            s.filter(nonempty_pred())
        },
{
    reveal(Seq::filter);
    assert(s.push(x).drop_last() =~= s);
    assert(s.push(x).last() == x);
}

/// The whitespace tokens of a byte string, empty pieces dropped.
pub fn tokenize(s: &[u8]) -> (r: Vec<Vec<u8>>)
    ensures
        views_of(r@) == tokens_of(s@),
{
    let pieces = split_bytes(s, 32);
    let mut out: Vec<Vec<u8>> = Vec::new();
    let mut i: usize = 0;
    proof {
        assert(views_of(pieces@).take(0) =~= Seq::<Seq<u8>>::empty());
        assert(Seq::<Seq<u8>>::empty().filter(nonempty_pred()) =~= views_of(out@)) by {
            reveal(Seq::filter);
        }
    }
    while i < pieces.len()
        invariant
            0 <= i <= pieces@.len(),
            views_of(pieces@) == split_seq(s@, 32),
            views_of(out@) == views_of(pieces@).take(i as int).filter(nonempty_pred()),
        decreases pieces@.len() - i,
    {
        let ghost prior = out@;
        if pieces[i].len() != 0 {
            let piece = copy_bytes(pieces[i].as_slice());
            out.push(piece);
        }
        proof {
            lemma_filter_push(views_of(pieces@).take(i as int), views_of(pieces@)[i as int]);
            assert(views_of(pieces@).take(i + 1) =~= views_of(pieces@).take(i as int).push(
                views_of(pieces@)[i as int],
            ));
            assert(views_of(pieces@)[i as int] == pieces@[i as int]@);
            if pieces@[i as int]@.len() != 0 {
                assert(views_of(out@) =~= views_of(prior).push(pieces@[i as int]@));
            }
        }
        i = i + 1;
    }
    proof {
        assert(views_of(pieces@).take(pieces@.len() as int) =~= views_of(pieces@));
    }
    out
}

/// The position of the first occurrence of a byte, if any.
fn find_byte(s: &[u8], b: u8) -> (r: Option<usize>)
    ensures
        match r {
            Some(i) => i < s@.len() && s@[i as int] == b && forall|k: int|
                0 <= k < i ==> s@[k] != b,
            None => forall|k: int| 0 <= k < s@.len() ==> s@[k] != b,
        },
{
    let mut i: usize = 0;
    while i < s.len()
        invariant
            0 <= i <= s@.len(),
            forall|k: int| 0 <= k < i ==> s@[k] != b,
        decreases s@.len() - i,
    {
        if s[i] == b {
            return Some(i);
        }
        i = i + 1;
    }
    None
}

/// True when the byte string is one or more ASCII digits.
fn all_digits(s: &[u8]) -> (r: bool)
    ensures
        r == is_digits(s@),
{
    if s.len() == 0 {
        return false;
    }
    let mut i: usize = 0;
    while i < s.len()
        invariant
            0 <= i <= s@.len(),
            forall|k: int| 0 <= k < i ==> 48 <= #[trigger] s@[k] <= 57,
        decreases s@.len() - i,
    {
        let c = s[i];
        if c < 48 || c > 57 {
            proof {
                assert(!(48 <= s@[i as int] <= 57));
            }
            return false;
        }
        i = i + 1;
    }
    true
}

/// True when the byte string is a well-formed position field.
pub fn check_float(s: &[u8]) -> (r: bool)
    ensures
        r == is_float_lit(s@),
{
    let body: &[u8] = if s.len() > 0 && s[0] == 45 {
        &s[1..s.len()]
    } else {
        &s[0..s.len()]
    };
    proof {
        if s@.len() > 0 && s@[0] == 45 {
            assert(body@ =~= s@.skip(1));
        } else {
            assert(body@ =~= s@);
        }
        assert(body@ == float_body(s@));
    }
    let ghost t = float_body(s@);
    match find_byte(body, 46) {
        None => {
            let r = all_digits(body);
            proof {
                if !r {
                    assert forall|k: int| !dotted_at(t, k) by {
                        if 0 <= k < t.len() {
                            assert(t[k] != 46);
                        }
                    }
                }
            }
            r
        },
        Some(k) => {
            let before = &body[0..k];
            let after = &body[k + 1..body.len()];
            proof {
                assert(before@ =~= t.take(k as int));
                assert(after@ =~= t.skip(k as int + 1));
            }
            let ok_before = all_digits(before);
            let ok_after = all_digits(after);
            let r = ok_before && ok_after;
            proof {
                if r {
                    assert(dotted_at(t, k as int));
                } else {
                    assert(!is_digits(t)) by {
                        assert(t[k as int] == 46);
                    }
                    assert forall|j: int| !dotted_at(t, j) by {
                        if 0 <= j < t.len() && t[j] == 46 {
                            if j < k as int {
                                assert(t[j] != 46);
                            } else if j == k as int {
                                assert(!(is_digits(t.take(j)) && is_digits(t.skip(j + 1))));
                            } else {
                                assert((k as int) < j);
                                if is_digits(t.take(j)) {
                                    assert(48 <= t.take(j)[k as int] && t.take(j)[k as int] <= 57);
                                    assert(t[k as int] == 46);
                                    assert(false);
                                }
                            }
                        }
                    }
                }
            }
            r
        },
    }
}

/// Parses an integer field and checks it against the coordinate range.
pub fn parse_coord(s: &[u8], lim: i64) -> (r: Option<i64>)
    requires
        lim > 0,
    ensures
        r is Some <==> valid_coord_field(s@, lim as int),
        r is Some ==> r->0 as int == int_literal_value(s@) && -lim <= r->0 <= lim,
{
    match parse_i64(s) {
        Some(v) => {
            if -lim <= v && v <= lim {
                Some(v)
            } else {
                None
            }
        },
        None => None,
    }
}


/// Finds the position of a connection id among the players.
fn find_player_idx(s: &Vec<(u64, Player)>, q: u64) -> (r: Option<usize>)
    ensures
        match r {
            Some(i) => i < s@.len() && s@[i as int].0 == q,
            None => forall|k: int| 0 <= k < s@.len() ==> (#[trigger] s@[k]).0 != q,
        },
{
    let mut i: usize = 0;
    while i < s.len()
        invariant
            0 <= i <= s@.len(),
            forall|k: int| 0 <= k < i ==> (#[trigger] s@[k]).0 != q,
        decreases s@.len() - i,
    {
        if s[i].0 == q {
            return Some(i);
        }
        i = i + 1;
    }
    None
}

/// True when the byte string is exactly the one-byte tag `b`.
fn is_tag(v: &[u8], b: u8) -> (r: bool)
    ensures
        r == (v@ == seq![b]),
{
    if v.len() != 1 {
        proof {
            assert(v@.len() != 1);
        }
        return false;
    }
    let c = v[0];
    let r = c == b;
    proof {
        if r {
            assert(v@ =~= seq![b]);
        } else {
            assert(v@[0] != b);
        }
    }
    r
}

// ---------------------------------------------------------------------------
// Session state transitions
// ---------------------------------------------------------------------------

/// The nickname of a connected player.
pub open spec fn nick_in(players: Seq<(u64, Player)>, id: u64) -> Seq<u8> {
    find_pair(players, id)->0.nick@
}

/// The player list after a position update: one player's transform
/// fields replaced by the message fields, everything else untouched.
pub open spec fn position_updated(
    oldp: Seq<(u64, Player)>,
    newp: Seq<(u64, Player)>,
    id: u64,
    f: Seq<Seq<u8>>,
) -> bool {
    &&& newp.len() == oldp.len()
    &&& forall|k: int| 0 <= k < oldp.len() ==> (#[trigger] newp[k]).0 == oldp[k].0
    &&& forall|k: int| 0 <= k < oldp.len() && oldp[k].0 != id ==> #[trigger] newp[k] == oldp[k]
    &&& match find_pair(newp, id) {
        Some(p) => {
            let q = find_pair(oldp, id)->0;
            &&& p.nick == q.nick
            &&& p.x@ == f[1]
            &&& p.y@ == f[2]
            &&& p.z@ == f[3]
            &&& p.rx@ == f[4]
            &&& p.ry@ == f[5]
        },
        None => false,
    }
}

/// The player list after a rename: one player's nickname replaced,
/// everything else untouched.
pub open spec fn nick_updated(
    oldp: Seq<(u64, Player)>,
    newp: Seq<(u64, Player)>,
    id: u64,
    new_nick: Seq<u8>,
) -> bool {
    &&& newp.len() == oldp.len()
    &&& forall|k: int| 0 <= k < oldp.len() ==> (#[trigger] newp[k]).0 == oldp[k].0
    &&& forall|k: int| 0 <= k < oldp.len() && oldp[k].0 != id ==> #[trigger] newp[k] == oldp[k]
    &&& match find_pair(newp, id) {
        Some(p) => {
            let q = find_pair(oldp, id)->0;
            &&& p.nick@ == new_nick
            &&& p.x == q.x
            &&& p.y == q.y
            &&& p.z == q.z
            &&& p.rx == q.rx
            &&& p.ry == q.ry
        },
        None => false,
    }
}

/// What the command interpreter does: `/nick <name>` renames and
/// notifies everyone including the renamer; bare `/nick` reports the
/// current nickname to the sender; anything else reports an unknown
/// command with its argument count to the sender.
pub open spec fn command_effect(
    oldp: Seq<(u64, Player)>,
    newp: Seq<(u64, Player)>,
    id: u64,
    text: Seq<u8>,
    frames: Seq<(u64, Seq<u8>)>,
) -> bool {
    let toks = tokens_of(text);
    if toks.len() == 2 && toks[0] == lit_nick_cmd() {
        let pls = seq![msg_rename(nick_in(oldp, id), toks[1]), msg_n(id, toks[1])];
        &&& nick_updated(oldp, newp, id, toks[1])
        &&& frames == fan_out(newp, Some(id), pls) + to_id(id, pls)
    } else if toks.len() == 1 && toks[0] == lit_nick_cmd() {
        &&& newp == oldp
        &&& frames == to_id(id, seq![msg_you_are(nick_in(oldp, id))])
    } else {
        let cmd = if toks.len() > 0 {
            toks[0]
        } else {
            Seq::<u8>::empty()
        };
        let nargs = if toks.len() > 0 {
            (toks.len() - 1) as nat
        } else {
            0nat
        };
        &&& newp == oldp
        &&& frames == to_id(id, seq![msg_unknown(cmd, nargs)])
    }
}

/// The version handshake: only version 2 is accepted; a short message
/// is a field-count error, any other version fails the connection.
pub open spec fn v_effect(f: Seq<Seq<u8>>, r: Result<Dispatch, ProtocolError>) -> bool {
    if f.len() < 2 {
        is_err(r, ProtocolError::WrongFieldCount)
    } else if f[1] == lit_two() {
        is_done(r, Seq::empty())
    } else {
        is_err(r, ProtocolError::BadVersion)
    }
}

/// The chunk request: five fields, in-range coordinates; an unexplored
/// chunk asks for terrain, an all-air chunk is skipped entirely, any
/// other chunk is answered with its raw compressed reply.
pub open spec fn c_effect(
    m0: WorldMap,
    m1: WorldMap,
    id: u64,
    f: Seq<Seq<u8>>,
    r: Result<Dispatch, ProtocolError>,
) -> bool {
    if f.len() != 5 {
        is_err(r, ProtocolError::WrongFieldCount) && m1 == m0
    } else if !(valid_coord_field(f[1], CHUNK_COORD_LIMIT as int) && valid_coord_field(
        f[2],
        CHUNK_COORD_LIMIT as int,
    ) && valid_coord_field(f[3], CHUNK_COORD_LIMIT as int)) {
        is_err(r, ProtocolError::BadNumber) && m1 == m0
    } else {
        let cc = Coords(
            int_literal_value(f[1]) as i64,
            int_literal_value(f[2]) as i64,
            int_literal_value(f[3]) as i64,
        );
        &&& (m0.blocks_at(cc) is None ==> is_need(r, cc))
        &&& (m0.blocks_at(cc) matches Some(bs) ==> {
            &&& m1.has_chunk(cc)
            &&& (m1.mem_chunk(cc)->0.spec_air() ==> is_done(r, Seq::empty()))
            &&& (!m1.mem_chunk(cc)->0.spec_air() ==> is_done(
                r,
                seq![(id, chunk_reply(cc, ids_of(bs)))],
            ))
        })
    }
}

/// The position update: six fields, each a well-formed position
/// field; the sender's transform is replaced and broadcast to every
/// other session, with no echo.
pub open spec fn p_effect(
    oldp: Seq<(u64, Player)>,
    newp: Seq<(u64, Player)>,
    id: u64,
    f: Seq<Seq<u8>>,
    r: Result<Dispatch, ProtocolError>,
) -> bool {
    if f.len() != 6 {
        is_err(r, ProtocolError::WrongFieldCount) && newp == oldp
    } else if !(is_float_lit(f[1]) && is_float_lit(f[2]) && is_float_lit(f[3]) && is_float_lit(
        f[4],
    ) && is_float_lit(f[5])) {
        is_err(r, ProtocolError::BadNumber) && newp == oldp
    } else {
        &&& position_updated(oldp, newp, id, f)
        &&& is_done(r, fan_out(newp, Some(id), seq![msg_p(id, f[1], f[2], f[3], f[4], f[5])]))
    }
}

/// The block edit: five fields; the block is written through to the
/// owning chunk (asking for terrain first if it is unexplored) and the
/// edit is broadcast to every session including the editor.
pub open spec fn b_effect(
    m0: WorldMap,
    m1: WorldMap,
    players: Seq<(u64, Player)>,
    id: u64,
    f: Seq<Seq<u8>>,
    r: Result<Dispatch, ProtocolError>,
) -> bool {
    if f.len() != 5 {
        is_err(r, ProtocolError::WrongFieldCount) && m1 == m0
    } else if !(valid_coord_field(f[1], WORLD_COORD_LIMIT as int) && valid_coord_field(
        f[2],
        WORLD_COORD_LIMIT as int,
    ) && valid_coord_field(f[3], WORLD_COORD_LIMIT as int) && is_digits(f[4]) && digits_value(
        f[4],
    ) <= 255) {
        is_err(r, ProtocolError::BadNumber) && m1 == m0
    } else {
        let w = Coords(
            int_literal_value(f[1]) as i64,
            int_literal_value(f[2]) as i64,
            int_literal_value(f[3]) as i64,
        );
        let cc = w.chunk_coord();
        let b = digits_value(f[4]) as u8;
        let bmsg = msg_b(w.0 as int, w.1 as int, w.2 as int, b);
        &&& (m0.blocks_at(cc) is None ==> is_need(r, cc) && (forall|c: Coords|
            #[trigger] m1.blocks_at(c) == m0.blocks_at(c)))
        &&& (m0.blocks_at(cc) matches Some(bs) ==> {
            &&& m1.blocks_at(cc) == Some(
                bs.update(crate::chunk::spec_lin(w.local_coord()), Block { matter: b }),
            )
            &&& (forall|c: Coords| c != cc ==> #[trigger] m1.blocks_at(c) == m0.blocks_at(c))
            &&& is_done(r, fan_out(players, Some(id), seq![bmsg]) + to_id(id, seq![bmsg]))
        })
    }
}

/// The chat line: too short a message is malformed; a `/` prefix goes
/// to the command interpreter; anything else is broadcast to every
/// session including the sender, prefixed with the sender's nickname.
pub open spec fn t_effect(
    oldp: Seq<(u64, Player)>,
    newp: Seq<(u64, Player)>,
    id: u64,
    msg: Seq<u8>,
    r: Result<Dispatch, ProtocolError>,
) -> bool {
    if msg.len() < 2 {
        is_err(r, ProtocolError::Malformed) && newp == oldp
    } else {
        let text = msg.skip(2);
        if text.len() > 0 && text[0] == 47 {
            match r {
                Ok(d) => match d {
                    Dispatch::Done(v) => command_effect(oldp, newp, id, text, frame_views(v@)),
                    Dispatch::NeedChunk(_) => false,
                },
                Err(_) => false,
            }
        } else {
            let chat = msg_chat(nick_in(oldp, id), text);
            &&& newp == oldp
            &&& is_done(r, fan_out(oldp, Some(id), seq![chat]) + to_id(id, seq![chat]))
        }
    }
}

impl Server {
    /// The connected players in connection order.
    pub closed spec fn players_seq(self) -> Seq<(u64, Player)> {
        self.players@
    }

    /// The world store.
    pub closed spec fn spec_map(self) -> WorldMap {
        self.map
    }

    /// True when this connection id has a session.
    pub open spec fn has_player(self, id: u64) -> bool {
        find_pair(self.players_seq(), id) is Some
    }

    /// Well-formedness: unique connection ids over a well-formed store.
    pub open spec fn wf(self) -> bool {
        &&& keys_unique(self.players_seq())
        &&& self.spec_map().wf()
    }

    /// A fresh session layer over the persisted world.
    pub fn new(time: u32, storage: Vec<(Coords, Vec<u8>)>) -> (r: Server)
        requires
            keys_unique(storage@),
        ensures
            r.wf(),
            r.players_seq().len() == 0,
            r.spec_map().spec_time() == time,
            r.spec_map().storage_seq() == storage@,
            r.spec_map().chunks_seq().len() == 0,
    {
        Server { players: Vec::new(), map: WorldMap::new(time, storage) }
    }

    /// The world store, for inspection.
    pub fn world(&self) -> (r: &WorldMap)
        ensures
            *r == self.spec_map(),
    {
        &self.map
    }

    /// Hands generated terrain to the store after a `NeedChunk` answer;
    /// an instance that appeared meanwhile stays authoritative.
    pub fn supply_chunk(&mut self, cc: Coords, heights: &Vec<ColumnHeights>)
        requires
            old(self).wf(),
            worldgen::spec_chunk_in_range(cc),
            heights@.len() == 1024,
        ensures
            final(self).wf(),
            final(self).players_seq() == old(self).players_seq(),
            final(self).spec_map().spec_time() == old(self).spec_map().spec_time(),
            final(self).spec_map().storage_seq() == old(self).spec_map().storage_seq(),
            forall|c: Coords|
                c != cc ==> #[trigger] final(self).spec_map().blocks_at(c) == old(
                    self,
                ).spec_map().blocks_at(c),
            old(self).spec_map().blocks_at(cc) is Some ==> final(self).spec_map().blocks_at(cc)
                == old(self).spec_map().blocks_at(cc),
            old(self).spec_map().blocks_at(cc) is None ==> final(self).spec_map().blocks_at(cc)
                == Some(
                Seq::new(32768, |i: int| worldgen::spec_gen_block(32 * cc.1 as int, heights@, i)),
            ),
            final(self).spec_map().blocks_at(cc) is Some,
    {
        self.map.insert_generated(cc, heights);
    }

    /// Creates the session for a fresh connection: announces the joiner
    /// to everyone else, and sends the joiner its identity, the time of
    /// day, and the roster of every other session.
    pub fn connect(&mut self, id: u64) -> (r: Vec<(u64, Vec<u8>)>)
        requires
            old(self).wf(),
            !old(self).has_player(id),
        ensures
            final(self).wf(),
            final(self).spec_map() == old(self).spec_map(),
            final(self).has_player(id),
            final(self).players_seq().len() == old(self).players_seq().len() + 1,
            final(self).players_seq().take(old(self).players_seq().len() as int) == old(
                self,
            ).players_seq(),
            forall|x: u64|
                x != id ==> #[trigger] find_pair(final(self).players_seq(), x) == find_pair(
                    old(self).players_seq(),
                    x,
                ),
            ({
                let p = find_pair(final(self).players_seq(), id)->0;
                &&& p.nick@ == default_nick(id)
                &&& p.x@ == seq![48u8]
                &&& p.y@ == seq![48u8]
                &&& p.z@ == seq![48u8]
                &&& p.rx@ == seq![48u8]
                &&& p.ry@ == seq![48u8]
            }),
            frame_views(r@) == fan_out(
                old(self).players_seq(),
                None,
                seq![msg_n(id, default_nick(id)), msg_join(default_nick(id)), msg_p_zero(id)],
            ) + to_id(id, seq![msg_u_zero(id), msg_e(old(self).spec_map().spec_time())])
                + roster_frames(old(self).players_seq(), id),
    {
        let ghost oldp = self.players@;
        let nick = build_default_nick(id);
        let mut pls: Vec<Vec<u8>> = Vec::new();
        pls.push(build_n(id, nick.as_slice()));
        pls.push(build_join(nick.as_slice()));
        pls.push(build_p_zero(id));
        proof {
            assert(views_of(pls@) =~= seq![
                msg_n(id, default_nick(id)),
                msg_join(default_nick(id)),
                msg_p_zero(id),
            ]);
        }
        let mut out: Vec<(u64, Vec<u8>)> = Vec::new();
        fan_out_exec(&self.players, None, &pls, &mut out);
        let ghost fan_part = fan_out(
            oldp,
            None,
            seq![msg_n(id, default_nick(id)), msg_join(default_nick(id)), msg_p_zero(id)],
        );
        proof {
            assert(frame_views(Seq::<(u64, Vec<u8>)>::empty()) =~= Seq::<(u64, Seq<u8>)>::empty());
            assert(frame_views(out@) =~= fan_part);
        }
        let ghost before_self = out@;
        out.push((id, build_u_zero(id)));
        proof {
            lemma_frame_views_index(before_self);
            lemma_frame_views_index(out@);
            assert(frame_views(out@) =~= fan_part + seq![(id, msg_u_zero(id))]);
        }
        let ghost mid_self = out@;
        out.push((id, build_e(self.map.get_time())));
        proof {
            let pls2 = seq![msg_u_zero(id), msg_e(self.map.spec_time())];
            lemma_frame_views_index(mid_self);
            lemma_frame_views_index(out@);
            lemma_to_id_index(id, pls2);
            assert(frame_views(out@) =~= frame_views(mid_self) + seq![(id, msg_e(
                self.map.spec_time(),
            ))]);
            assert(frame_views(out@) =~= fan_part + to_id(id, pls2));
        }
        let ghost base = out@;
        let mut k: usize = 0;
        proof {
            assert(oldp.take(0) =~= Seq::<(u64, Player)>::empty());
            assert(frame_views(out@) =~= frame_views(base) + roster_frames(oldp.take(0), id));
        }
        while k < self.players.len()
            invariant
                0 <= k <= self.players@.len(),
                self.players@ == oldp,
                frame_views(out@) == frame_views(base) + roster_frames(oldp.take(k as int), id),
            decreases self.players@.len() - k,
        {
            let pid = self.players[k].0;
            let pm = build_p(
                pid,
                self.players[k].1.x.as_slice(),
                self.players[k].1.y.as_slice(),
                self.players[k].1.z.as_slice(),
                self.players[k].1.rx.as_slice(),
                self.players[k].1.ry.as_slice(),
            );
            let nm = build_n(pid, self.players[k].1.nick.as_slice());
            let ghost prior = out@;
            out.push((id, pm));
            proof {
                lemma_frame_views_index(prior);
                lemma_frame_views_index(out@);
                assert(frame_views(out@) =~= frame_views(prior) + seq![(id, msg_p(
                    oldp[k as int].0,
                    oldp[k as int].1.x@,
                    oldp[k as int].1.y@,
                    oldp[k as int].1.z@,
                    oldp[k as int].1.rx@,
                    oldp[k as int].1.ry@,
                ))]);
            }
            let ghost mid_r = out@;
            out.push((id, nm));
            proof {
                lemma_roster_push(oldp.take(k as int), oldp[k as int], id);
                assert(oldp.take(k + 1) =~= oldp.take(k as int).push(oldp[k as int]));
                lemma_frame_views_index(mid_r);
                lemma_frame_views_index(out@);
                assert(frame_views(out@) =~= frame_views(mid_r) + seq![(id, msg_n(
                    oldp[k as int].0,
                    oldp[k as int].1.nick@,
                ))]);
                assert(frame_views(out@) =~= frame_views(base) + roster_frames(
                    oldp.take(k + 1),
                    id,
                ));
            }
            k = k + 1;
        }
        proof {
            assert(oldp.take(oldp.len() as int) =~= oldp);
        }
        let player = Player {
            nick,
            x: build_zero(),
            y: build_zero(),
            z: build_zero(),
            rx: build_zero(),
            ry: build_zero(),
        };
        let ghost gplayer = player;
        proof {
            lemma_find_char(self.players@, id);
        }
        self.players.push((id, player));
        proof {
            lemma_find_push(oldp, id, gplayer);
            assert(self.players@.take(oldp.len() as int) =~= oldp);
        }
        out
    }

    /// Removes a session: notifies the remaining sessions and hands
    /// back the persistence payload of the world.
    pub fn disconnect(&mut self, id: u64) -> (r: (Vec<(u64, Vec<u8>)>, Vec<(Coords, Vec<u8>)>))
        requires
            old(self).wf(),
            old(self).has_player(id),
        ensures
            final(self).wf(),
            final(self).spec_map() == old(self).spec_map(),
            !final(self).has_player(id),
            forall|x: u64|
                x != id ==> #[trigger] find_pair(final(self).players_seq(), x) == find_pair(
                    old(self).players_seq(),
                    x,
                ),
            exists|i: int|
                0 <= i < old(self).players_seq().len() && (#[trigger] old(self).players_seq()[i]).0
                    == id && final(self).players_seq() == old(self).players_seq().remove(i),
            frame_views(r.0@) == fan_out(
                final(self).players_seq(),
                None,
                seq![msg_d(id), msg_left(nick_in(old(self).players_seq(), id))],
            ),
            old(self).spec_map().save_matches(r.1@),
    {
        let idx = find_player_idx(&self.players, id);
        match idx {
            Some(i) => {
                proof {
                    lemma_find_at(self.players@, i as int);
                }
                let nick = copy_bytes(self.players[i].1.nick.as_slice());
                let mut pls: Vec<Vec<u8>> = Vec::new();
                pls.push(build_d(id));
                pls.push(build_left(nick.as_slice()));
                proof {
                    assert(views_of(pls@) =~= seq![
                        msg_d(id),
                        msg_left(nick_in(old(self).players_seq(), id)),
                    ]);
                }
                let ghost oldp = self.players@;
                let _removed = self.players.remove(i);
                proof {
                    lemma_find_remove(oldp, i as int);
                    assert(oldp[i as int].0 == id && self.players@ == oldp.remove(i as int));
                }
                let saved = self.map.save();
                let mut out: Vec<(u64, Vec<u8>)> = Vec::new();
                fan_out_exec(&self.players, None, &pls, &mut out);
                proof {
                    assert(frame_views(Seq::<(u64, Vec<u8>)>::empty()) =~= Seq::<(
                        u64,
                        Seq<u8>,
                    )>::empty());
                }
                (out, saved)
            },
            None => {
                proof {
                    lemma_find_char(self.players@, id);
                    assert(false);
                }
                vstd::pervasive::unreached()
            },
        }
    }

    /// Advances the day counter; past the save threshold, also hands
    /// back the persistence payload of the world.
    pub fn tick(&mut self, nticks: u64) -> (r: Option<Vec<(Coords, Vec<u8>)>>)
        requires
            old(self).wf(),
        ensures
            final(self).wf(),
            final(self).players_seq() == old(self).players_seq(),
            final(self).spec_map().spec_time() as int == (old(self).spec_map().spec_time() as int
                + nticks as int) % 12000,
            final(self).spec_map().chunks_seq() == old(self).spec_map().chunks_seq(),
            final(self).spec_map().storage_seq() == old(self).spec_map().storage_seq(),
            r is Some <==> nticks > 600,
            r matches Some(saved) ==> final(self).spec_map().save_matches(saved@),
    {
        self.map.tick(nticks);
        if nticks > 600 {
            Some(self.map.save())
        } else {
            None
        }
    }

    /// Interprets a chat command line (everything after `T,/`).
    pub fn command(&mut self, id: u64, cmd: &[u8]) -> (r: Vec<(u64, Vec<u8>)>)
        requires
            old(self).wf(),
            old(self).has_player(id),
        ensures
            final(self).wf(),
            final(self).spec_map() == old(self).spec_map(),
            final(self).has_player(id),
            command_effect(
                old(self).players_seq(),
                final(self).players_seq(),
                id,
                cmd@,
                frame_views(r@),
            ),
    {
        let toks = tokenize(cmd);
        let ghost tks = tokens_of(cmd@);
        proof {
            assert(views_of(toks@) == tks);
        }
        let nick_lit: [u8; 5] = [47u8, 110u8, 105u8, 99u8, 107u8];
        proof {
            assert(nick_lit@ =~= lit_nick_cmd());
        }
        let is_nick = toks.len() >= 1 && bytes_eq(toks[0].as_slice(), &nick_lit);
        proof {
            if toks.len() >= 1 {
                assert(toks@[0]@ == tks[0]);
            }
        }
        if is_nick && toks.len() == 2 {
            let idx = find_player_idx(&self.players, id);
            match idx {
                Some(i) => {
                    proof {
                        lemma_find_at(self.players@, i as int);
                    }
                    let old_nick = copy_bytes(self.players[i].1.nick.as_slice());
                    let new_nick = toks[1].as_slice();
                    proof {
                        assert(toks@[1]@ == tks[1]);
                    }
                    let mut pls: Vec<Vec<u8>> = Vec::new();
                    pls.push(build_rename(old_nick.as_slice(), new_nick));
                    pls.push(build_n(id, new_nick));
                    proof {
                        assert(views_of(pls@) =~= seq![
                            msg_rename(nick_in(old(self).players_seq(), id), tks[1]),
                            msg_n(id, tks[1]),
                        ]);
                    }
                    let ghost oldp = self.players@;
                    let mut pair = self.players.remove(i);
                    pair.1.nick = copy_bytes(new_nick);
                    let ghost newpair = pair;
                    self.players.insert(i, pair);
                    proof {
                        assert(self.players@ =~= oldp.update(i as int, newpair));
                        lemma_find_update(oldp, self.players@, i as int);
                    }
                    let mut out: Vec<(u64, Vec<u8>)> = Vec::new();
                    fan_out_exec(&self.players, Some(id), &pls, &mut out);
                    let ghost fan_part = fan_out(self.players@, Some(id), views_of(pls@));
                    proof {
                        assert(frame_views(Seq::<(u64, Vec<u8>)>::empty()) =~= Seq::<(
                            u64,
                            Seq<u8>,
                        )>::empty());
                        assert(frame_views(out@) =~= fan_part);
                    }
                    let ghost before_self = out@;
                    let echo0 = copy_bytes(pls[0].as_slice());
                    out.push((id, echo0));
                    proof {
                        lemma_frame_views_index(before_self);
                        lemma_frame_views_index(out@);
                        assert(frame_views(out@) =~= fan_part + seq![views_of(pls@)[0]].map_values(
                            |p: Seq<u8>| (id, p),
                        )) by {
                            assert(frame_views(out@) =~= frame_views(before_self) + seq![(id,
                            pls@[0]@)]);
                            assert(seq![views_of(pls@)[0]].map_values(|p: Seq<u8>| (id, p))
                                =~= seq![(id, pls@[0]@)]);
                        }
                    }
                    let ghost mid_e = out@;
                    let echo1 = copy_bytes(pls[1].as_slice());
                    out.push((id, echo1));
                    proof {
                        lemma_frame_views_index(mid_e);
                        lemma_frame_views_index(out@);
                        lemma_to_id_index(id, views_of(pls@));
                        assert(frame_views(out@) =~= frame_views(mid_e) + seq![(id, pls@[1]@)]);
                        assert(frame_views(out@) =~= fan_part + to_id(id, views_of(pls@)));
                    }
                    out
                },
                None => {
                    proof {
                        lemma_find_char(self.players@, id);
                        assert(false);
                    }
                    vstd::pervasive::unreached()
                },
            }
        } else if is_nick && toks.len() == 1 {
            let idx = find_player_idx(&self.players, id);
            match idx {
                Some(i) => {
                    proof {
                        lemma_find_at(self.players@, i as int);
                    }
                    let reply = build_you_are(self.players[i].1.nick.as_slice());
                    let mut out: Vec<(u64, Vec<u8>)> = Vec::new();
                    out.push((id, reply));
                    proof {
                        lemma_frame_views_index(out@);
                        lemma_to_id_index(
                            id,
                            seq![msg_you_are(nick_in(old(self).players_seq(), id))],
                        );
                        assert(frame_views(out@) =~= to_id(
                            id,
                            seq![msg_you_are(nick_in(old(self).players_seq(), id))],
                        ));
                    }
                    out
                },
                None => {
                    proof {
                        lemma_find_char(self.players@, id);
                        assert(false);
                    }
                    vstd::pervasive::unreached()
                },
            }
        } else {
            let empty_cmd: [u8; 0] = [];
            let reply = if toks.len() > 0 {
                build_unknown(toks[0].as_slice(), (toks.len() - 1) as u64)
            } else {
                build_unknown(&empty_cmd, 0)
            };
            let ghost cmd_tok = if tks.len() > 0 {
                tks[0]
            } else {
                Seq::<u8>::empty()
            };
            let ghost nargs: nat = if tks.len() > 0 {
                (tks.len() - 1) as nat
            } else {
                0nat
            };
            let mut out: Vec<(u64, Vec<u8>)> = Vec::new();
            out.push((id, reply));
            proof {
                lemma_frame_views_index(out@);
                lemma_to_id_index(id, seq![msg_unknown(cmd_tok, nargs)]);
                assert(frame_views(out@) =~= to_id(id, seq![msg_unknown(cmd_tok, nargs)]));
            }
            out
        }
    }
}


impl Server {
    /// Answers a chunk request: parses the coordinate, materializes the
    /// chunk, and returns its raw compressed reply, nothing for an
    /// all-air chunk, or a request for terrain.
    fn handle_chunk_request(&mut self, id: u64, fields: &Vec<Vec<u8>>) -> (r: Result<
        Dispatch,
        ProtocolError,
    >)
        requires
            old(self).wf(),
        ensures
            final(self).wf(),
            final(self).players_seq() == old(self).players_seq(),
            final(self).spec_map().spec_time() == old(self).spec_map().spec_time(),
            final(self).spec_map().storage_seq() == old(self).spec_map().storage_seq(),
            forall|c: Coords|
                #[trigger] final(self).spec_map().blocks_at(c) == old(self).spec_map().blocks_at(
                    c,
                ),
            c_effect(old(self).spec_map(), final(self).spec_map(), id, views_of(fields@), r),
    {
        let ghost f = views_of(fields@);
        if fields.len() != 5 {
            return Err(ProtocolError::WrongFieldCount);
        }
        let p = match parse_coord(fields[1].as_slice(), CHUNK_COORD_LIMIT) {
            Some(v) => v,
            None => {
                return Err(ProtocolError::BadNumber);
            },
        };
        let q = match parse_coord(fields[2].as_slice(), CHUNK_COORD_LIMIT) {
            Some(v) => v,
            None => {
                return Err(ProtocolError::BadNumber);
            },
        };
        let rr = match parse_coord(fields[3].as_slice(), CHUNK_COORD_LIMIT) {
            Some(v) => v,
            None => {
                return Err(ProtocolError::BadNumber);
            },
        };
        let cc = Coords(p, q, rr);
        proof {
            assert(fields@[1]@ == f[1] && fields@[2]@ == f[2] && fields@[3]@ == f[3]);
        }
        if !self.map.ensure_chunk(cc) {
            return Ok(Dispatch::NeedChunk(cc));
        }
        if self.map.chunk_is_air(cc) {
            let none: Vec<(u64, Vec<u8>)> = Vec::new();
            proof {
                assert(frame_views(none@) =~= Seq::<(u64, Seq<u8>)>::empty());
            }
            return Ok(Dispatch::Done(none));
        }
        let ghost mid = self.map;
        let blob = self.map.serialize_chunk(cc);
        let mut payload: Vec<u8> = Vec::new();
        push_ctag(&mut payload);
        push_be_i64(&mut payload, p);
        push_be_i64(&mut payload, q);
        push_be_i64(&mut payload, rr);
        push_bytes(&mut payload, blob.as_slice());
        proof {
            let bs = old(self).spec_map().blocks_at(cc)->0;
            assert(mid.blocks_at(cc) == Some(bs));
            assert(mid.mem_chunk(cc)->0.blocks_seq() == bs);
            assert(ids_of(bs) =~= mid.mem_chunk(cc)->0.ids());
            assert(payload@ =~= chunk_reply(cc, ids_of(bs)));
        }
        let mut frames: Vec<(u64, Vec<u8>)> = Vec::new();
        frames.push((id, payload));
        proof {
            lemma_frame_views_index(frames@);
            assert(frame_views(frames@) =~= seq![
                (id, chunk_reply(cc, ids_of(old(self).spec_map().blocks_at(cc)->0))),
            ]);
        }
        Ok(Dispatch::Done(frames))
    }

    /// Applies a position update and broadcasts it to the others.
    fn handle_position(&mut self, id: u64, fields: &Vec<Vec<u8>>) -> (r: Result<
        Dispatch,
        ProtocolError,
    >)
        requires
            old(self).wf(),
            old(self).has_player(id),
        ensures
            final(self).wf(),
            final(self).has_player(id),
            final(self).spec_map() == old(self).spec_map(),
            p_effect(old(self).players_seq(), final(self).players_seq(), id, views_of(fields@), r),
    {
        let ghost f = views_of(fields@);
        if fields.len() != 6 {
            return Err(ProtocolError::WrongFieldCount);
        }
        proof {
            assert(fields@[1]@ == f[1] && fields@[2]@ == f[2] && fields@[3]@ == f[3]
                && fields@[4]@ == f[4] && fields@[5]@ == f[5]);
        }
        if !(check_float(fields[1].as_slice()) && check_float(fields[2].as_slice()) && check_float(
            fields[3].as_slice(),
        ) && check_float(fields[4].as_slice()) && check_float(fields[5].as_slice())) {
            return Err(ProtocolError::BadNumber);
        }
        let idx = find_player_idx(&self.players, id);
        match idx {
            Some(i) => {
                proof {
                    lemma_find_at(self.players@, i as int);
                }
                let ghost oldp = self.players@;
                let mut pair = self.players.remove(i);
                pair.1.x = copy_bytes(fields[1].as_slice());
                pair.1.y = copy_bytes(fields[2].as_slice());
                pair.1.z = copy_bytes(fields[3].as_slice());
                pair.1.rx = copy_bytes(fields[4].as_slice());
                pair.1.ry = copy_bytes(fields[5].as_slice());
                let ghost newpair = pair;
                self.players.insert(i, pair);
                proof {
                    assert(self.players@ =~= oldp.update(i as int, newpair));
                    lemma_find_update(oldp, self.players@, i as int);
                }
                let pm = build_p(
                    id,
                    fields[1].as_slice(),
                    fields[2].as_slice(),
                    fields[3].as_slice(),
                    fields[4].as_slice(),
                    fields[5].as_slice(),
                );
                let mut pls: Vec<Vec<u8>> = Vec::new();
                pls.push(pm);
                proof {
                    assert(views_of(pls@) =~= seq![msg_p(id, f[1], f[2], f[3], f[4], f[5])]);
                }
                let mut out: Vec<(u64, Vec<u8>)> = Vec::new();
                fan_out_exec(&self.players, Some(id), &pls, &mut out);
                proof {
                    assert(frame_views(Seq::<(u64, Vec<u8>)>::empty()) =~= Seq::<(
                        u64,
                        Seq<u8>,
                    )>::empty());
                }
                Ok(Dispatch::Done(out))
            },
            None => {
                proof {
                    lemma_find_char(self.players@, id);
                    assert(false);
                }
                vstd::pervasive::unreached()
            },
        }
    }

    /// Applies a block edit and broadcasts it to everyone, including
    /// the editor; asks for terrain first if the chunk is unexplored.
    fn handle_block(&mut self, id: u64, fields: &Vec<Vec<u8>>) -> (r: Result<
        Dispatch,
        ProtocolError,
    >)
        requires
            old(self).wf(),
        ensures
            final(self).wf(),
            final(self).players_seq() == old(self).players_seq(),
            final(self).spec_map().spec_time() == old(self).spec_map().spec_time(),
            final(self).spec_map().storage_seq() == old(self).spec_map().storage_seq(),
            b_effect(
                old(self).spec_map(),
                final(self).spec_map(),
                old(self).players_seq(),
                id,
                views_of(fields@),
                r,
            ),
    {
        let ghost f = views_of(fields@);
        if fields.len() != 5 {
            return Err(ProtocolError::WrongFieldCount);
        }
        proof {
            assert(fields@[1]@ == f[1] && fields@[2]@ == f[2] && fields@[3]@ == f[3]
                && fields@[4]@ == f[4]);
        }
        let x = match parse_coord(fields[1].as_slice(), WORLD_COORD_LIMIT) {
            Some(v) => v,
            None => {
                return Err(ProtocolError::BadNumber);
            },
        };
        let y = match parse_coord(fields[2].as_slice(), WORLD_COORD_LIMIT) {
            Some(v) => v,
            None => {
                return Err(ProtocolError::BadNumber);
            },
        };
        let z = match parse_coord(fields[3].as_slice(), WORLD_COORD_LIMIT) {
            Some(v) => v,
            None => {
                return Err(ProtocolError::BadNumber);
            },
        };
        let w = match parse_u64(fields[4].as_slice()) {
            Some(v) => {
                if v <= 255 {
                    v as u8
                } else {
                    return Err(ProtocolError::BadNumber);
                }
            },
            None => {
                return Err(ProtocolError::BadNumber);
            },
        };
        let wc = Coords(x, y, z);
        let cc = wc.chunk();
        if !self.map.ensure_chunk(cc) {
            return Ok(Dispatch::NeedChunk(cc));
        }
        let ghost mid = self.map;
        proof {
            assert(mid.blocks_at(cc) == old(self).spec_map().blocks_at(cc));
        }
        self.map.replace_block(wc, Block { matter: w });
        proof {
            let bs = old(self).spec_map().blocks_at(cc)->0;
            assert(mid.blocks_at(cc) == Some(mid.mem_chunk(cc)->0.blocks_seq()));
            assert(mid.mem_chunk(cc)->0.blocks_seq() == bs);
            assert(self.map.blocks_at(cc) == Some(
                bs.update(crate::chunk::spec_lin(wc.local_coord()), Block { matter: w }),
            ));
        }
        let bm = build_b(x, y, z, w);
        let mut pls: Vec<Vec<u8>> = Vec::new();
        pls.push(bm);
        proof {
            assert(views_of(pls@) =~= seq![msg_b(x as int, y as int, z as int, w)]);
        }
        let mut out: Vec<(u64, Vec<u8>)> = Vec::new();
        fan_out_exec(&self.players, Some(id), &pls, &mut out);
        let ghost fan_part = fan_out(self.players@, Some(id), views_of(pls@));
        proof {
            assert(frame_views(Seq::<(u64, Vec<u8>)>::empty()) =~= Seq::<(u64, Seq<u8>)>::empty());
            assert(frame_views(out@) =~= fan_part);
        }
        let ghost before_echo = out@;
        let echo = copy_bytes(pls[0].as_slice());
        out.push((id, echo));
        proof {
            lemma_frame_views_index(before_echo);
            lemma_frame_views_index(out@);
            lemma_to_id_index(id, views_of(pls@));
            assert(frame_views(out@) =~= frame_views(before_echo) + seq![(id, pls@[0]@)]);
            assert(frame_views(out@) =~= fan_part + to_id(id, views_of(pls@)));
        }
        Ok(Dispatch::Done(out))
    }

    /// Dispatches one inbound payload by its first field: version
    /// handshake, chunk request, position update, block edit, or chat.
    /// A malformed payload fails with a protocol error and leaves every
    /// session and the world untouched.
    pub fn process_message(&mut self, id: u64, msg: &[u8]) -> (r: Result<Dispatch, ProtocolError>)
        requires
            old(self).wf(),
            old(self).has_player(id),
        ensures
            final(self).wf(),
            final(self).has_player(id),
            ({
                let f = split_seq(msg@, 44);
                &&& (f[0] == lit_vtag() ==> final(self).players_seq() == old(self).players_seq()
                    && final(self).spec_map() == old(self).spec_map() && v_effect(f, r))
                &&& (f[0] == lit_ctag() ==> final(self).players_seq() == old(self).players_seq()
                    && final(self).spec_map().spec_time() == old(self).spec_map().spec_time()
                    && final(self).spec_map().storage_seq() == old(self).spec_map().storage_seq()
                    && (forall|c: Coords|
                    #[trigger] final(self).spec_map().blocks_at(c)
                        == old(self).spec_map().blocks_at(c)) && c_effect(
                    old(self).spec_map(),
                    final(self).spec_map(),
                    id,
                    f,
                    r,
                ))
                &&& (f[0] == lit_ptag() ==> final(self).spec_map() == old(self).spec_map()
                    && p_effect(old(self).players_seq(), final(self).players_seq(), id, f, r))
                &&& (f[0] == lit_btag() ==> final(self).players_seq() == old(self).players_seq()
                    && final(self).spec_map().spec_time() == old(self).spec_map().spec_time()
                    && final(self).spec_map().storage_seq() == old(self).spec_map().storage_seq()
                    && b_effect(
                    old(self).spec_map(),
                    final(self).spec_map(),
                    old(self).players_seq(),
                    id,
                    f,
                    r,
                ))
                &&& (f[0] == lit_ttag() ==> final(self).spec_map() == old(self).spec_map()
                    && t_effect(old(self).players_seq(), final(self).players_seq(), id, msg@, r))
                &&& (!(f[0] == lit_vtag() || f[0] == lit_ctag() || f[0] == lit_ptag() || f[0]
                    == lit_btag() || f[0] == lit_ttag()) ==> is_err(r, ProtocolError::UnknownMessage)
                    && final(self).players_seq() == old(self).players_seq()
                    && final(self).spec_map() == old(self).spec_map())
            }),
    {
        let fields = split_bytes(msg, 44);
        let ghost f = split_seq(msg@, 44);
        proof {
            assert(views_of(fields@) == f);
            assert(fields@[0]@ == f[0]);
            assert(lit_vtag()[0] == 86 && lit_ctag()[0] == 67 && lit_ptag()[0] == 80 && lit_btag()[
                0] == 66 && lit_ttag()[0] == 84);
        }
        let tag_v = is_tag(fields[0].as_slice(), 86);
        let tag_c = is_tag(fields[0].as_slice(), 67);
        let tag_p = is_tag(fields[0].as_slice(), 80);
        let tag_b = is_tag(fields[0].as_slice(), 66);
        let tag_t = is_tag(fields[0].as_slice(), 84);
        if tag_v {
            if fields.len() < 2 {
                return Err(ProtocolError::WrongFieldCount);
            }
            proof {
                assert(fields@[1]@ == f[1]);
            }
            let two: [u8; 1] = [50u8];
            let ok = bytes_eq(fields[1].as_slice(), &two);
            proof {
                assert(two@ =~= lit_two());
            }
            if ok {
                let none: Vec<(u64, Vec<u8>)> = Vec::new();
                proof {
                    assert(frame_views(none@) =~= Seq::<(u64, Seq<u8>)>::empty());
                }
                Ok(Dispatch::Done(none))
            } else {
                Err(ProtocolError::BadVersion)
            }
        } else if tag_c {
            self.handle_chunk_request(id, &fields)
        } else if tag_p {
            self.handle_position(id, &fields)
        } else if tag_b {
            self.handle_block(id, &fields)
        } else if tag_t {
            if msg.len() < 2 {
                return Err(ProtocolError::Malformed);
            }
            let text = &msg[2..msg.len()];
            proof {
                assert(text@ =~= msg@.skip(2));
            }
            if text.len() > 0 && text[0] == 47 {
                let fr = self.command(id, text);
                Ok(Dispatch::Done(fr))
            } else {
                let idx = find_player_idx(&self.players, id);
                match idx {
                    Some(i) => {
                        proof {
                            lemma_find_at(self.players@, i as int);
                        }
                        let nick = copy_bytes(self.players[i].1.nick.as_slice());
                        let chat = build_chat(nick.as_slice(), text);
                        let mut pls: Vec<Vec<u8>> = Vec::new();
                        pls.push(chat);
                        proof {
                            assert(views_of(pls@) =~= seq![
                                msg_chat(nick_in(old(self).players_seq(), id), msg@.skip(2)),
                            ]);
                        }
                        let mut out: Vec<(u64, Vec<u8>)> = Vec::new();
                        fan_out_exec(&self.players, Some(id), &pls, &mut out);
                        let ghost fan_part = fan_out(self.players@, Some(id), views_of(pls@));
                        proof {
                            assert(frame_views(Seq::<(u64, Vec<u8>)>::empty()) =~= Seq::<(
                                u64,
                                Seq<u8>,
                            )>::empty());
                            assert(frame_views(out@) =~= fan_part);
                        }
                        let ghost before_echo = out@;
                        let echo = copy_bytes(pls[0].as_slice());
                        out.push((id, echo));
                        proof {
                            lemma_frame_views_index(before_echo);
                            lemma_frame_views_index(out@);
                            lemma_to_id_index(id, views_of(pls@));
                            assert(frame_views(out@) =~= frame_views(before_echo) + seq![
                                (id, pls@[0]@),
                            ]);
                            assert(frame_views(out@) =~= fan_part + to_id(id, views_of(pls@)));
                        }
                        Ok(Dispatch::Done(out))
                    },
                    None => {
                        proof {
                            lemma_find_char(self.players@, id);
                            assert(false);
                        }
                        vstd::pervasive::unreached()
                    },
                }
            }
        } else {
            Err(ProtocolError::UnknownMessage)
        }
    }
}

} // verus!
