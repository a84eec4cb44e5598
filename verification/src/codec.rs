//! The persisted snapshot encoding: a JSON-shaped text format over byte
//! strings, with fixed keys in a fixed order, `null` for absent optional
//! fields and arrays for list fields even when empty.  Quotes and
//! backslashes carry a two-byte escape and control bytes a `\u00` escape,
//! so every byte string round-trips.
//!
//! The format is given twice: as specification functions that build the
//! encoded byte sequence of a model value, and as a specification parser
//! that reads one back.  The executable encoder and decoder below are
//! verified against them; `crate::roundtrip` proves that the parser inverts
//! the encoder on every well-formed value.

use vstd::prelude::*;
use crate::ids::{UserId, RoomId, valid_user_id, valid_room_id};
use crate::state::{
    SessionModel, ClientModel, RoomModel, Session, ClientState, RoomState, user_ids_view,
};
use crate::text::push_all;

verus! {

// ---------------------------------------------------------------------------
// The fixed tokens of the format.
// ---------------------------------------------------------------------------
/// `{"session":`
#[verifier::opaque]
pub open spec fn key_session() -> Seq<u8> {
    seq![123u8, 34, 115, 101, 115, 115, 105, 111, 110, 34, 58]
}

/// `,"sync_token":`
#[verifier::opaque]
pub open spec fn key_sync_token() -> Seq<u8> {
    seq![44u8, 34, 115, 121, 110, 99, 95, 116, 111, 107, 101, 110, 34, 58]
}

/// `,"ignored_users":`
#[verifier::opaque]
pub open spec fn key_ignored_users() -> Seq<u8> {
    seq![44u8, 34, 105, 103, 110, 111, 114, 101, 100, 95, 117, 115, 101, 114, 115, 34, 58]
}

/// `,"push_ruleset":`
#[verifier::opaque]
pub open spec fn key_push_ruleset() -> Seq<u8> {
    seq![44u8, 34, 112, 117, 115, 104, 95, 114, 117, 108, 101, 115, 101, 116, 34, 58]
}

/// `{"user_id":`
#[verifier::opaque]
pub open spec fn key_user_id() -> Seq<u8> {
    seq![123u8, 34, 117, 115, 101, 114, 95, 105, 100, 34, 58]
}

/// `,"device_id":`
#[verifier::opaque]
pub open spec fn key_device_id() -> Seq<u8> {
    seq![44u8, 34, 100, 101, 118, 105, 99, 101, 95, 105, 100, 34, 58]
}

/// `,"access_token":`
#[verifier::opaque]
pub open spec fn key_access_token() -> Seq<u8> {
    seq![44u8, 34, 97, 99, 99, 101, 115, 115, 95, 116, 111, 107, 101, 110, 34, 58]
}

/// `{"room_id":`
#[verifier::opaque]
pub open spec fn key_room_id() -> Seq<u8> {
    seq![123u8, 34, 114, 111, 111, 109, 95, 105, 100, 34, 58]
}

/// `,"data":`
#[verifier::opaque]
pub open spec fn key_data() -> Seq<u8> {
    seq![44u8, 34, 100, 97, 116, 97, 34, 58]
}

/// `null`
#[verifier::opaque]
pub open spec fn lit_null() -> Seq<u8> {
    seq![110u8, 117, 108, 108]
}

// ---------------------------------------------------------------------------
// Specification encoder.
// ---------------------------------------------------------------------------
/// The lowercase hex digit standing for a value below sixteen.
pub open spec fn hex_digit(n: u8) -> u8 {
    if n < 10 {
        (48 + n) as u8
    } else {
        (87 + n) as u8
    }
}

/// The value of a hex digit byte; sixteen where the byte is no hex digit.
pub open spec fn hex_val(b: u8) -> u8 {
    if 48 <= b <= 57 {
        (b - 48) as u8
    } else if 97 <= b <= 102 {
        (b - 87) as u8
    } else {
        16
    }
}

/// One byte of string content on the wire: quotes and backslashes carry a
/// two-byte escape, control bytes a six-byte `\u00` escape, and every
/// other byte stands for itself.
pub open spec fn esc_byte(b: u8) -> Seq<u8> {
    if b == 34 || b == 92 {
        seq![92u8, b]
    } else if b < 32 {
        seq![92u8, 117, 48, 48, hex_digit(b / 16), hex_digit(b % 16)]
    } else {
        seq![b]
    }
}

/// The wire form of a byte string's content.
pub open spec fn esc_text(s: Seq<u8>) -> Seq<u8>
    decreases s.len(),
{
    if s.len() == 0 {
        Seq::empty()
    } else {
        esc_byte(s[0]) + esc_text(s.skip(1))
    }
}

/// A byte string as a quoted wire string.
pub open spec fn quoted(s: Seq<u8>) -> Seq<u8> {
    seq![34u8] + esc_text(s) + seq![34u8]
}

/// An optional byte string: `null` or a quoted string.
pub open spec fn opt_text_enc(t: Option<Seq<u8>>) -> Seq<u8> {
    match t {
        None => lit_null(),
        Some(s) => quoted(s),
    }
}

/// Quoted strings joined by commas.
pub open spec fn text_list_enc(l: Seq<Seq<u8>>) -> Seq<u8>
    decreases l.len(),
{
    if l.len() == 0 {
        Seq::empty()
    } else if l.len() == 1 {
        quoted(l[0])
    } else {
        quoted(l[0]) + seq![44u8] + text_list_enc(l.skip(1))
    }
}

/// A bracketed array of quoted strings.
pub open spec fn list_enc(l: Seq<Seq<u8>>) -> Seq<u8> {
    seq![91u8] + text_list_enc(l) + seq![93u8]
}

/// A session as a wire object with `user_id`, `device_id` and
/// `access_token` keys.
pub open spec fn session_enc(s: SessionModel) -> Seq<u8> {
    key_user_id() + quoted(s.user_id) + key_device_id() + quoted(s.device_id)
        + key_access_token() + quoted(s.access_token) + seq![125u8]
}

/// An optional session: `null` or the session object.
pub open spec fn opt_session_enc(s: Option<SessionModel>) -> Seq<u8> {
    match s {
        None => lit_null(),
        Some(m) => session_enc(m),
    }
}

/// The whole client snapshot on the wire.
pub open spec fn encode_client_model(c: ClientModel) -> Seq<u8> {
    key_session() + opt_session_enc(c.session) + key_sync_token() + opt_text_enc(c.sync_token)
        + key_ignored_users() + list_enc(c.ignored_users) + key_push_ruleset() + opt_text_enc(
        c.push_ruleset,
    ) + seq![125u8]
}

/// A room snapshot on the wire.
pub open spec fn encode_room_model(r: RoomModel) -> Seq<u8> {
    key_room_id() + quoted(r.room_id) + key_data() + quoted(r.data) + seq![125u8]
}

// ---------------------------------------------------------------------------
// Specification parser.  Each function reads from position `i` and returns
// the parsed value with the position after it, or nothing when the input
// does not have the expected shape there.
// ---------------------------------------------------------------------------
/// Consumes the exact bytes of `lit`.
pub open spec fn parse_lit(inp: Seq<u8>, i: int, lit: Seq<u8>) -> Option<int> {
    if 0 <= i && i + lit.len() <= inp.len() && inp.subrange(i, i + lit.len()) == lit {
        Some(i + lit.len())
    } else {
        None
    }
}

/// Consumes string content up to and including an unescaped closing quote,
/// yielding the unescaped bytes.
pub open spec fn parse_text_body(inp: Seq<u8>, i: int) -> Option<(Seq<u8>, int)>
    decreases inp.len() - i,
{
    if i < 0 || i >= inp.len() {
        None
    } else if inp[i] == 34 {
        Some((Seq::empty(), i + 1))
    } else if inp[i] == 92 {
        if i + 1 < inp.len() && (inp[i + 1] == 34 || inp[i + 1] == 92) {
            match parse_text_body(inp, i + 2) {
                Some(p) => Some((seq![inp[i + 1]] + p.0, p.1)),
                None => None,
            }
        } else if i + 5 < inp.len() && inp[i + 1] == 117 && inp[i + 2] == 48 && inp[i + 3] == 48
            && hex_val(inp[i + 4]) < 16 && hex_val(inp[i + 5]) < 16 {
            match parse_text_body(inp, i + 6) {
                Some(p) => Some(
                    (seq![(hex_val(inp[i + 4]) * 16 + hex_val(inp[i + 5])) as u8] + p.0, p.1),
                ),
                None => None,
            }
        } else {
            None
        }
    } else if inp[i] >= 32 {
        match parse_text_body(inp, i + 1) {
            Some(p) => Some((seq![inp[i]] + p.0, p.1)),
            None => None,
        }
    } else {
        None
    }
}

/// Consumes a quoted string.
pub open spec fn parse_quoted(inp: Seq<u8>, i: int) -> Option<(Seq<u8>, int)> {
    if 0 <= i < inp.len() && inp[i] == 34 {
        parse_text_body(inp, i + 1)
    } else {
        None
    }
}

/// Consumes `null` or a quoted string.
pub open spec fn parse_opt_text(inp: Seq<u8>, i: int) -> Option<(Option<Seq<u8>>, int)> {
    if parse_lit(inp, i, lit_null()) is Some {
        Some((None, i + lit_null().len()))
    } else {
        match parse_quoted(inp, i) {
            Some(p) => Some((Some(p.0), p.1)),
            None => None,
        }
    }
}

/// Consumes the comma-separated items of a non-empty array together with the
/// closing bracket.  `fuel` bounds the number of items; the callers hand it
/// the input length, which no item count can exceed.
pub open spec fn parse_items(inp: Seq<u8>, i: int, fuel: nat) -> Option<(Seq<Seq<u8>>, int)>
    decreases fuel,
{
    if fuel == 0 {
        None
    } else {
        match parse_quoted(inp, i) {
            Some(p) => {
                let (s, j) = p;
                if 0 <= j < inp.len() && inp[j] == 93 {
                    Some((seq![s], j + 1))
                } else if 0 <= j < inp.len() && inp[j] == 44 {
                    match parse_items(inp, j + 1, (fuel - 1) as nat) {
                        Some(q) => Some((seq![s] + q.0, q.1)),
                        None => None,
                    }
                } else {
                    None
                }
            },
            None => None,
        }
    }
}

/// Consumes a bracketed array of quoted strings.
pub open spec fn parse_list(inp: Seq<u8>, i: int) -> Option<(Seq<Seq<u8>>, int)> {
    if 0 <= i < inp.len() && inp[i] == 91 {
        if i + 1 < inp.len() && inp[i + 1] == 93 {
            Some((Seq::empty(), i + 2))
        } else {
            parse_items(inp, i + 1, inp.len() as nat)
        }
    } else {
        None
    }
}

/// Consumes a session object whose user identifier is well shaped.
pub open spec fn parse_session_obj(inp: Seq<u8>, i: int) -> Option<(SessionModel, int)> {
    match parse_lit(inp, i, key_user_id()) {
        Some(i1) => match parse_quoted(inp, i1) {
            Some(p1) => match parse_lit(inp, p1.1, key_device_id()) {
                Some(i2) => match parse_quoted(inp, i2) {
                    Some(p2) => match parse_lit(inp, p2.1, key_access_token()) {
                        Some(i3) => match parse_quoted(inp, i3) {
                            Some(p3) => {
                                if 0 <= p3.1 < inp.len() && inp[p3.1] == 125 && valid_user_id(
                                    p1.0,
                                ) {
                                    Some(
                                        (
                                            SessionModel {
                                                user_id: p1.0,
                                                device_id: p2.0,
                                                access_token: p3.0,
                                            },
                                            p3.1 + 1,
                                        ),
                                    )
                                } else {
                                    None
                                }
                            },
                            None => None,
                        },
                        None => None,
                    },
                    None => None,
                },
                None => None,
            },
            None => None,
        },
        None => None,
    }
}

/// Consumes `null` or a session object.
pub open spec fn parse_opt_session(inp: Seq<u8>, i: int) -> Option<(Option<SessionModel>, int)> {
    if parse_lit(inp, i, lit_null()) is Some {
        Some((None, i + lit_null().len()))
    } else {
        match parse_session_obj(inp, i) {
            Some(p) => Some((Some(p.0), p.1)),
            None => None,
        }
    }
}

/// Reads a whole client snapshot: the four fields in order, every ignored
/// user well shaped, nothing before or after.
pub open spec fn parse_client(inp: Seq<u8>) -> Option<ClientModel> {
    match parse_lit(inp, 0, key_session()) {
        Some(i1) => match parse_opt_session(inp, i1) {
            Some(ps) => match parse_lit(inp, ps.1, key_sync_token()) {
                Some(i2) => match parse_opt_text(inp, i2) {
                    Some(pt) => match parse_lit(inp, pt.1, key_ignored_users()) {
                        Some(i3) => match parse_list(inp, i3) {
                            Some(pl) => match parse_lit(inp, pl.1, key_push_ruleset()) {
                                Some(i4) => match parse_opt_text(inp, i4) {
                                    Some(pp) => {
                                        if pp.1 + 1 == inp.len() && inp[pp.1] == 125 && (forall|
                                            k: int,
                                        |
                                            0 <= k < pl.0.len() ==> valid_user_id(
                                                #[trigger] pl.0[k],
                                            )) {
                                            Some(
                                                ClientModel {
                                                    session: ps.0,
                                                    sync_token: pt.0,
                                                    ignored_users: pl.0,
                                                    push_ruleset: pp.0,
                                                },
                                            )
                                        } else {
                                            None
                                        }
                                    },
                                    None => None,
                                },
                                None => None,
                            },
                            None => None,
                        },
                        None => None,
                    },
                    None => None,
                },
                None => None,
            },
            None => None,
        },
        None => None,
    }
}

/// Reads a whole room snapshot: identifier and payload, the identifier well
/// shaped, nothing before or after.
pub open spec fn parse_room(inp: Seq<u8>) -> Option<RoomModel> {
    match parse_lit(inp, 0, key_room_id()) {
        Some(i1) => match parse_quoted(inp, i1) {
            Some(p1) => match parse_lit(inp, p1.1, key_data()) {
                Some(i2) => match parse_quoted(inp, i2) {
                    Some(p2) => {
                        if p2.1 + 1 == inp.len() && inp[p2.1] == 125 && valid_room_id(p1.0) {
                            Some(RoomModel { room_id: p1.0, data: p2.0 })
                        } else {
                            None
                        }
                    },
                    None => None,
                },
                None => None,
            },
            None => None,
        },
        None => None,
    }
}

// ---------------------------------------------------------------------------
// The fixed tokens as vectors, for the executable encoder and decoder.
// ---------------------------------------------------------------------------
fn key_session_vec() -> (v: Vec<u8>)
    ensures
        v@ == key_session(),
{
    let mut v: Vec<u8> = Vec::new();
    v.push(123);
    v.push(34);
    v.push(115);
    v.push(101);
    v.push(115);
    v.push(115);
    v.push(105);
    v.push(111);
    v.push(110);
    v.push(34);
    v.push(58);
    proof { reveal(key_session); }
    assert(v@ =~= key_session());
    v
}

fn key_sync_token_vec() -> (v: Vec<u8>)
    ensures
        v@ == key_sync_token(),
{
    let mut v: Vec<u8> = Vec::new();
    v.push(44);
    v.push(34);
    v.push(115);
    v.push(121);
    v.push(110);
    v.push(99);
    v.push(95);
    v.push(116);
    v.push(111);
    v.push(107);
    v.push(101);
    v.push(110);
    v.push(34);
    v.push(58);
    proof { reveal(key_sync_token); }
    assert(v@ =~= key_sync_token());
    v
}

fn key_ignored_users_vec() -> (v: Vec<u8>)
    ensures
        v@ == key_ignored_users(),
{
    let mut v: Vec<u8> = Vec::new();
    v.push(44);
    v.push(34);
    v.push(105);
    v.push(103);
    v.push(110);
    v.push(111);
    v.push(114);
    v.push(101);
    v.push(100);
    v.push(95);
    v.push(117);
    v.push(115);
    v.push(101);
    v.push(114);
    v.push(115);
    v.push(34);
    v.push(58);
    proof { reveal(key_ignored_users); }
    assert(v@ =~= key_ignored_users());
    v
}

fn key_push_ruleset_vec() -> (v: Vec<u8>)
    ensures
        v@ == key_push_ruleset(),
{
    let mut v: Vec<u8> = Vec::new();
    v.push(44);
    v.push(34);
    v.push(112);
    v.push(117);
    v.push(115);
    v.push(104);
    v.push(95);
    v.push(114);
    v.push(117);
    v.push(108);
    v.push(101);
    v.push(115);
    v.push(101);
    v.push(116);
    v.push(34);
    v.push(58);
    proof { reveal(key_push_ruleset); }
    assert(v@ =~= key_push_ruleset());
    v
}

fn key_user_id_vec() -> (v: Vec<u8>)
    ensures
        v@ == key_user_id(),
{
    let mut v: Vec<u8> = Vec::new();
    v.push(123);
    v.push(34);
    v.push(117);
    v.push(115);
    v.push(101);
    v.push(114);
    v.push(95);
    v.push(105);
    v.push(100);
    v.push(34);
    v.push(58);
    proof { reveal(key_user_id); }
    assert(v@ =~= key_user_id());
    v
}

fn key_device_id_vec() -> (v: Vec<u8>)
    ensures
        v@ == key_device_id(),
{
    let mut v: Vec<u8> = Vec::new();
    v.push(44);
    v.push(34);
    v.push(100);
    v.push(101);
    v.push(118);
    v.push(105);
    v.push(99);
    v.push(101);
    v.push(95);
    v.push(105);
    v.push(100);
    v.push(34);
    v.push(58);
    proof { reveal(key_device_id); }
    assert(v@ =~= key_device_id());
    v
}

fn key_access_token_vec() -> (v: Vec<u8>)
    ensures
        v@ == key_access_token(),
{
    let mut v: Vec<u8> = Vec::new();
    v.push(44);
    v.push(34);
    v.push(97);
    v.push(99);
    v.push(99);
    v.push(101);
    v.push(115);
    v.push(115);
    v.push(95);
    v.push(116);
    v.push(111);
    v.push(107);
    v.push(101);
    v.push(110);
    v.push(34);
    v.push(58);
    proof { reveal(key_access_token); }
    assert(v@ =~= key_access_token());
    v
}

fn key_room_id_vec() -> (v: Vec<u8>)
    ensures
        v@ == key_room_id(),
{
    let mut v: Vec<u8> = Vec::new();
    v.push(123);
    v.push(34);
    v.push(114);
    v.push(111);
    v.push(111);
    v.push(109);
    v.push(95);
    v.push(105);
    v.push(100);
    v.push(34);
    v.push(58);
    proof { reveal(key_room_id); }
    assert(v@ =~= key_room_id());
    v
}

fn key_data_vec() -> (v: Vec<u8>)
    ensures
        v@ == key_data(),
{
    let mut v: Vec<u8> = Vec::new();
    v.push(44);
    v.push(34);
    v.push(100);
    v.push(97);
    v.push(116);
    v.push(97);
    v.push(34);
    v.push(58);
    proof { reveal(key_data); }
    assert(v@ =~= key_data());
    v
}

fn lit_null_vec() -> (v: Vec<u8>)
    ensures
        v@ == lit_null(),
{
    let mut v: Vec<u8> = Vec::new();
    v.push(110);
    v.push(117);
    v.push(108);
    v.push(108);
    proof { reveal(lit_null); }
    assert(v@ =~= lit_null());
    v
}

// ---------------------------------------------------------------------------
// Executable encoder.
// ---------------------------------------------------------------------------
/// `esc_text` distributes over concatenation.
proof fn lemma_esc_text_concat(a: Seq<u8>, b: Seq<u8>)
    ensures
        esc_text(a + b) == esc_text(a) + esc_text(b),
    decreases a.len(),
{
    if a.len() == 0 {
        assert(a + b =~= b);
        assert(esc_text(a) + esc_text(b) =~= esc_text(b));
    } else {
        assert((a + b).skip(1) =~= a.skip(1) + b);
        lemma_esc_text_concat(a.skip(1), b);
        assert(esc_byte((a + b)[0]) + (esc_text(a.skip(1)) + esc_text(b)) =~= (esc_byte(a[0])
            + esc_text(a.skip(1))) + esc_text(b));
    }
}

/// Executable form of `hex_digit`.
fn hex_digit_byte(n: u8) -> (r: u8)
    requires
        n < 16,
    ensures
        r == hex_digit(n),
{
    if n < 10 {
        48 + n
    } else {
        87 + n
    }
}

/// Executable form of `hex_val`.
fn hex_val_byte(b: u8) -> (r: u8)
    ensures
        r == hex_val(b),
{
    if 48 <= b && b <= 57 {
        b - 48
    } else if 97 <= b && b <= 102 {
        b - 87
    } else {
        16
    }
}

/// Appends the escaped content of `s` to `out`.
fn emit_escaped(out: &mut Vec<u8>, s: &Vec<u8>)
    ensures
        final(out)@ == old(out)@ + esc_text(s@),
{
    let n = s.len();
    let mut i: usize = 0;
    while i < n
        invariant
            n == s@.len(),
            0 <= i <= n,
            out@ == old(out)@ + esc_text(s@.take(i as int)),
        decreases n - i,
    {
        let b = s[i];
        proof {
            let one = seq![s@[i as int]];
            assert(s@.take(i + 1 as int) =~= s@.take(i as int) + one);
            lemma_esc_text_concat(s@.take(i as int), one);
            assert(one.skip(1) =~= Seq::<u8>::empty());
            assert(esc_text(one.skip(1)) == Seq::<u8>::empty());
            assert(esc_text(one) =~= esc_byte(one[0]) + esc_text(one.skip(1)));
            assert(esc_text(one) =~= esc_byte(s@[i as int]));
        }
        if b == 34 || b == 92 {
            out.push(92);
            out.push(b);
            assert(out@ =~= old(out)@ + esc_text(s@.take(i + 1 as int)));
        } else if b < 32 {
            assert(b / 16 < 16 && b % 16 < 16);
            out.push(92);
            out.push(117);
            out.push(48);
            out.push(48);
            out.push(hex_digit_byte(b / 16));
            out.push(hex_digit_byte(b % 16));
            assert(out@ =~= old(out)@ + esc_text(s@.take(i + 1 as int)));
        } else {
            out.push(b);
            assert(out@ =~= old(out)@ + esc_text(s@.take(i + 1 as int)));
        }
        i += 1;
    }
    assert(s@.take(n as int) =~= s@);
}

/// Appends `s` as a quoted wire string to `out`.
fn emit_quoted(out: &mut Vec<u8>, s: &Vec<u8>)
    ensures
        final(out)@ == old(out)@ + quoted(s@),
{
    out.push(34);
    emit_escaped(out, s);
    out.push(34);
    assert(out@ =~= old(out)@ + quoted(s@));
}

/// Appends `null` to `out`.
fn emit_null(out: &mut Vec<u8>)
    ensures
        final(out)@ == old(out)@ + lit_null(),
{
    out.push(110);
    out.push(117);
    out.push(108);
    out.push(108);
    proof {
        reveal(lit_null);
    }
    assert(out@ =~= old(out)@ + lit_null());
}

/// Appends `null` or a quoted string to `out`.
fn emit_opt_text(out: &mut Vec<u8>, t: &Option<Vec<u8>>)
    ensures
        final(out)@ == old(out)@ + opt_text_enc(
            match *t {
                Some(ref v) => Some(v@),
                None => None,
            },
        ),
{
    match t {
        None => emit_null(out),
        Some(v) => emit_quoted(out, v),
    }
}

/// Appends the comma-separated items of `users` from index `from` on to
/// `out`, mirroring `text_list_enc` of the remaining suffix.
fn emit_items(out: &mut Vec<u8>, users: &Vec<UserId>, from: usize)
    requires
        from <= users@.len(),
    ensures
        final(out)@ == old(out)@ + text_list_enc(user_ids_view(users@).skip(from as int)),
    decreases users@.len() - from,
{
    let ghost l = user_ids_view(users@).skip(from as int);
    if from == users.len() {
        assert(text_list_enc(l) =~= Seq::<u8>::empty());
        assert(out@ =~= out@ + text_list_enc(l));
    } else if from + 1 == users.len() {
        emit_quoted(out, users[from].as_bytes());
        assert(l.len() == 1 && l[0] == user_ids_view(users@)[from as int]);
    } else {
        emit_quoted(out, users[from].as_bytes());
        out.push(44);
        emit_items(out, users, from + 1);
        proof {
            assert(l.len() >= 2);
            assert(l.skip(1) =~= user_ids_view(users@).skip(from + 1 as int));
            assert(out@ =~= old(out)@ + (quoted(l[0]) + seq![44u8] + text_list_enc(l.skip(1))));
        }
    }
}

/// Appends the bracketed ignored-users array to `out`.
fn emit_list(out: &mut Vec<u8>, users: &Vec<UserId>)
    ensures
        final(out)@ == old(out)@ + list_enc(user_ids_view(users@)),
{
    out.push(91);
    emit_items(out, users, 0);
    out.push(93);
    proof {
        assert(user_ids_view(users@).skip(0) =~= user_ids_view(users@));
        assert(out@ =~= old(out)@ + list_enc(user_ids_view(users@)));
    }
}

/// Appends a session object to `out`.
fn emit_session(out: &mut Vec<u8>, s: &Session)
    ensures
        final(out)@ == old(out)@ + session_enc(s@),
{
    let k1 = key_user_id_vec();
    push_all(out, &k1);
    emit_quoted(out, s.user_id.as_bytes());
    let k2 = key_device_id_vec();
    push_all(out, &k2);
    emit_quoted(out, &s.device_id);
    let k3 = key_access_token_vec();
    push_all(out, &k3);
    emit_quoted(out, &s.access_token);
    out.push(125);
    assert(out@ =~= old(out)@ + session_enc(s@));
}

/// Encodes a client snapshot into its persisted wire form.
pub fn encode_client_state(c: &ClientState) -> (out: Vec<u8>)
    ensures
        out@ == encode_client_model(c@),
{
    let mut out: Vec<u8> = Vec::new();
    let k1 = key_session_vec();
    push_all(&mut out, &k1);
    match &c.session {
        None => emit_null(&mut out),
        Some(s) => emit_session(&mut out, s),
    }
    let k2 = key_sync_token_vec();
    push_all(&mut out, &k2);
    emit_opt_text(&mut out, &c.sync_token);
    let k3 = key_ignored_users_vec();
    push_all(&mut out, &k3);
    emit_list(&mut out, &c.ignored_users);
    let k4 = key_push_ruleset_vec();
    push_all(&mut out, &k4);
    match &c.push_ruleset {
        None => emit_null(&mut out),
        Some(r) => emit_quoted(&mut out, &r.raw),
    }
    out.push(125);
    assert(out@ =~= encode_client_model(c@));
    out
}

/// Encodes a room snapshot into its persisted wire form.
pub fn encode_room_state(r: &RoomState) -> (out: Vec<u8>)
    ensures
        out@ == encode_room_model(r@),
{
    let mut out: Vec<u8> = Vec::new();
    let k1 = key_room_id_vec();
    push_all(&mut out, &k1);
    emit_quoted(&mut out, r.room_id.as_bytes());
    let k2 = key_data_vec();
    push_all(&mut out, &k2);
    emit_quoted(&mut out, &r.data);
    out.push(125);
    assert(out@ =~= encode_room_model(r@));
    out
}

// ---------------------------------------------------------------------------
// Executable decoder.  Each function mirrors its specification parser.
// ---------------------------------------------------------------------------
/// The byte strings of a list of byte vectors, in order.
pub open spec fn bytes_list_view(l: Seq<Vec<u8>>) -> Seq<Seq<u8>> {
    l.map_values(|v: Vec<u8>| v@)
}

/// Executable form of `parse_lit`.
#[verifier::loop_isolation(false)]
fn match_lit(inp: &Vec<u8>, i: usize, lit: &Vec<u8>) -> (r: Option<usize>)
    ensures
        match r {
            Some(j) => parse_lit(inp@, i as int, lit@) == Some(j as int),
            None => parse_lit(inp@, i as int, lit@) is None,
        },
{
    let n = lit.len();
    if i > inp.len() || n > inp.len() - i {
        assert(parse_lit(inp@, i as int, lit@) is None);
        return None;
    }
    let mut j: usize = 0;
    while j < n
        invariant
            n == lit@.len(),
            i + n <= inp@.len(),
            0 <= j <= n,
            forall|k: int| 0 <= k < j ==> inp@[i + k] == lit@[k],
        decreases n - j,
    {
        assert(i + j < inp@.len());
        if inp[i + j] != lit[j] {
            proof {
                let sub = inp@.subrange(i as int, i + lit@.len());
                assert(sub[j as int] == inp@[i + j]);
                assert(sub != lit@);
            }
            return None;
        }
        j += 1;
    }
    assert(inp@.subrange(i as int, i + lit@.len()) =~= lit@);
    Some(i + n)
}

/// Executable form of `parse_text_body`: scans string content, building the
/// unescaped bytes.
fn scan_text(inp: &Vec<u8>, i: usize) -> (r: Option<(Vec<u8>, usize)>)
    ensures
        match r {
            Some(p) => parse_text_body(inp@, i as int) == Some((p.0@, p.1 as int)),
            None => parse_text_body(inp@, i as int) is None,
        },
{
    let mut out: Vec<u8> = Vec::new();
    let mut cur: usize = i;
    loop
        invariant
            i <= cur,
            cur <= inp@.len() || parse_text_body(inp@, cur as int) is None,
            match parse_text_body(inp@, cur as int) {
                Some(p) => parse_text_body(inp@, i as int) == Some((out@ + p.0, p.1)),
                None => parse_text_body(inp@, i as int) is None,
            },
        decreases inp@.len() - cur,
    {
        if cur >= inp.len() {
            assert(parse_text_body(inp@, cur as int) is None);
            return None;
        }
        let b = inp[cur];
        if b == 34 {
            proof {
                assert(parse_text_body(inp@, cur as int) == Some(
                    (Seq::<u8>::empty(), cur + 1 as int),
                ));
                assert(out@ + Seq::<u8>::empty() =~= out@);
            }
            return Some((out, cur + 1));
        } else if b == 92 {
            if cur + 1 < inp.len() && (inp[cur + 1] == 34 || inp[cur + 1] == 92) {
                let e = inp[cur + 1];
                proof {
                    match parse_text_body(inp@, cur + 2 as int) {
                        Some(p) => {
                            assert(parse_text_body(inp@, cur as int) == Some(
                                (seq![e] + p.0, p.1),
                            ));
                            assert(out@ + (seq![e] + p.0) =~= (out@ + seq![e]) + p.0);
                        },
                        None => {
                            assert(parse_text_body(inp@, cur as int) is None);
                        },
                    }
                }
                out.push(e);
                cur = cur + 2;
            } else if inp.len() - cur > 5 && inp[cur + 1] == 117 && inp[cur + 2] == 48
                && inp[cur + 3] == 48 && hex_val_byte(inp[cur + 4]) < 16 && hex_val_byte(
                inp[cur + 5],
            ) < 16 {
                let e = hex_val_byte(inp[cur + 4]) * 16 + hex_val_byte(inp[cur + 5]);
                proof {
                    match parse_text_body(inp@, cur + 6 as int) {
                        Some(p) => {
                            assert(parse_text_body(inp@, cur as int) == Some(
                                (seq![e] + p.0, p.1),
                            ));
                            assert(out@ + (seq![e] + p.0) =~= (out@ + seq![e]) + p.0);
                        },
                        None => {
                            assert(parse_text_body(inp@, cur as int) is None);
                        },
                    }
                }
                out.push(e);
                cur = cur + 6;
            } else {
                assert(parse_text_body(inp@, cur as int) is None);
                return None;
            }
        } else if b >= 32 {
            proof {
                match parse_text_body(inp@, cur + 1 as int) {
                    Some(p) => {
                        assert(parse_text_body(inp@, cur as int) == Some((seq![b] + p.0, p.1)));
                        assert(out@ + (seq![b] + p.0) =~= (out@ + seq![b]) + p.0);
                    },
                    None => {
                        assert(parse_text_body(inp@, cur as int) is None);
                    },
                }
            }
            out.push(b);
            cur = cur + 1;
        } else {
            assert(parse_text_body(inp@, cur as int) is None);
            return None;
        }
    }
}

/// Executable form of `parse_quoted`.
fn scan_quoted(inp: &Vec<u8>, i: usize) -> (r: Option<(Vec<u8>, usize)>)
    ensures
        match r {
            Some(p) => parse_quoted(inp@, i as int) == Some((p.0@, p.1 as int)),
            None => parse_quoted(inp@, i as int) is None,
        },
{
    if i < inp.len() && inp[i] == 34 {
        scan_text(inp, i + 1)
    } else {
        None
    }
}

/// Executable form of `parse_opt_text`.
fn scan_opt_text(inp: &Vec<u8>, i: usize) -> (r: Option<(Option<Vec<u8>>, usize)>)
    ensures
        match r {
            Some(p) => parse_opt_text(inp@, i as int) == Some(
                (
                    match p.0 {
                        Some(ref v) => Some(v@),
                        None => None,
                    },
                    p.1 as int,
                ),
            ),
            None => parse_opt_text(inp@, i as int) is None,
        },
{
    let nul = lit_null_vec();
    match match_lit(inp, i, &nul) {
        Some(j) => Some((None, j)),
        None => match scan_quoted(inp, i) {
            Some(p) => Some((Some(p.0), p.1)),
            None => None,
        },
    }
}

/// Executable form of `parse_items`.
fn scan_items(inp: &Vec<u8>, i: usize, fuel: usize) -> (r: Option<(Vec<Vec<u8>>, usize)>)
    ensures
        match r {
            Some(p) => parse_items(inp@, i as int, fuel as nat) == Some(
                (bytes_list_view(p.0@), p.1 as int),
            ),
            None => parse_items(inp@, i as int, fuel as nat) is None,
        },
{
    let mut acc: Vec<Vec<u8>> = Vec::new();
    let mut cur: usize = i;
    let mut f: usize = fuel;
    loop
        invariant
            match parse_items(inp@, cur as int, f as nat) {
                Some(p) => parse_items(inp@, i as int, fuel as nat) == Some(
                    (bytes_list_view(acc@) + p.0, p.1),
                ),
                None => parse_items(inp@, i as int, fuel as nat) is None,
            },
        decreases f,
    {
        if f == 0 {
            assert(parse_items(inp@, cur as int, f as nat) is None);
            return None;
        }
        match scan_quoted(inp, cur) {
            None => {
                assert(parse_items(inp@, cur as int, f as nat) is None);
                return None;
            },
            Some(p) => {
                let (s, j) = p;
                if j < inp.len() && inp[j] == 93 {
                    proof {
                        assert(parse_items(inp@, cur as int, f as nat) == Some(
                            (seq![s@], j + 1 as int),
                        ));
                        assert(bytes_list_view(acc@.push(s)) =~= bytes_list_view(acc@)
                            + seq![s@]);
                    }
                    acc.push(s);
                    return Some((acc, j + 1));
                } else if j < inp.len() && inp[j] == 44 {
                    proof {
                        match parse_items(inp@, j + 1 as int, (f - 1) as nat) {
                            Some(q) => {
                                assert(parse_items(inp@, cur as int, f as nat) == Some(
                                    (seq![s@] + q.0, q.1),
                                ));
                                assert(bytes_list_view(acc@.push(s)) =~= bytes_list_view(acc@)
                                    + seq![s@]);
                                assert(bytes_list_view(acc@) + (seq![s@] + q.0) =~= (
                                bytes_list_view(acc@) + seq![s@]) + q.0);
                            },
                            None => {
                                assert(parse_items(inp@, cur as int, f as nat) is None);
                            },
                        }
                    }
                    acc.push(s);
                    cur = j + 1;
                    f = f - 1;
                } else {
                    assert(parse_items(inp@, cur as int, f as nat) is None);
                    return None;
                }
            },
        }
    }
}

/// Executable form of `parse_list`.
fn scan_list(inp: &Vec<u8>, i: usize) -> (r: Option<(Vec<Vec<u8>>, usize)>)
    ensures
        match r {
            Some(p) => parse_list(inp@, i as int) == Some((bytes_list_view(p.0@), p.1 as int)),
            None => parse_list(inp@, i as int) is None,
        },
{
    if i < inp.len() && inp[i] == 91 {
        if i + 1 < inp.len() && inp[i + 1] == 93 {
            let empty: Vec<Vec<u8>> = Vec::new();
            assert(bytes_list_view(empty@) =~= Seq::<Seq<u8>>::empty());
            Some((empty, i + 2))
        } else {
            scan_items(inp, i + 1, inp.len())
        }
    } else {
        None
    }
}

/// Executable form of `parse_opt_session`, building a concrete [`Session`].
fn scan_opt_session(inp: &Vec<u8>, i: usize) -> (r: Option<(Option<Session>, usize)>)
    ensures
        match r {
            Some(p) => parse_opt_session(inp@, i as int) == Some(
                (
                    match p.0 {
                        Some(ref s) => Some(s@),
                        None => None,
                    },
                    p.1 as int,
                ),
            ),
            None => parse_opt_session(inp@, i as int) is None,
        },
{
    let nul = lit_null_vec();
    if let Some(j) = match_lit(inp, i, &nul) {
        return Some((None, j));
    }
    let k1 = key_user_id_vec();
    let i1 = match match_lit(inp, i, &k1) {
        Some(j) => j,
        None => {
            return None;
        },
    };
    let (user_bytes, j1) = match scan_quoted(inp, i1) {
        Some(p) => p,
        None => {
            return None;
        },
    };
    let k2 = key_device_id_vec();
    let i2 = match match_lit(inp, j1, &k2) {
        Some(j) => j,
        None => {
            return None;
        },
    };
    let (device_id, j2) = match scan_quoted(inp, i2) {
        Some(p) => p,
        None => {
            return None;
        },
    };
    let k3 = key_access_token_vec();
    let i3 = match match_lit(inp, j2, &k3) {
        Some(j) => j,
        None => {
            return None;
        },
    };
    let (access_token, j3) = match scan_quoted(inp, i3) {
        Some(p) => p,
        None => {
            return None;
        },
    };
    if !(j3 < inp.len() && inp[j3] == 125) {
        return None;
    }
    match UserId::new(user_bytes) {
        Some(user_id) => Some((Some(Session { user_id, device_id, access_token }), j3 + 1)),
        None => None,
    }
}

/// Decodes a client snapshot from its persisted wire form; accepts exactly
/// the byte strings that `parse_client` accepts.
#[verifier::loop_isolation(false)]
pub fn decode_client_state(inp: &Vec<u8>) -> (r: Option<ClientState>)
    ensures
        r is Some <==> parse_client(inp@) is Some,
        r matches Some(c) ==> parse_client(inp@) == Some(c@),
{
    let k1 = key_session_vec();
    let i1 = match match_lit(inp, 0, &k1) {
        Some(j) => j,
        None => {
            return None;
        },
    };
    let (session, j1) = match scan_opt_session(inp, i1) {
        Some(p) => p,
        None => {
            return None;
        },
    };
    let k2 = key_sync_token_vec();
    let i2 = match match_lit(inp, j1, &k2) {
        Some(j) => j,
        None => {
            return None;
        },
    };
    let (sync_token, j2) = match scan_opt_text(inp, i2) {
        Some(p) => p,
        None => {
            return None;
        },
    };
    let k3 = key_ignored_users_vec();
    let i3 = match match_lit(inp, j2, &k3) {
        Some(j) => j,
        None => {
            return None;
        },
    };
    let (user_list, j3) = match scan_list(inp, i3) {
        Some(p) => p,
        None => {
            return None;
        },
    };
    let k4 = key_push_ruleset_vec();
    let i4 = match match_lit(inp, j3, &k4) {
        Some(j) => j,
        None => {
            return None;
        },
    };
    let (push_raw, j4) = match scan_opt_text(inp, i4) {
        Some(p) => p,
        None => {
            return None;
        },
    };
    if !(j4 < inp.len() && inp[j4] == 125 && j4 + 1 == inp.len()) {
        return None;
    }
    let ghost parsed_users = bytes_list_view(user_list@);
    let mut ignored_users: Vec<UserId> = Vec::new();
    let n = user_list.len();
    let mut k: usize = 0;
    while k < n
        invariant
            n == user_list@.len(),
            0 <= k <= n,
            parsed_users == bytes_list_view(user_list@),
            ignored_users@.len() == k,
            forall|t: int| 0 <= t < k ==> ignored_users@[t]@ == parsed_users[t],
            forall|t: int| 0 <= t < k ==> valid_user_id(#[trigger] parsed_users[t]),
        decreases n - k,
    {
        let bytes = crate::text::copy_bytes(&user_list[k]);
        match UserId::new(bytes) {
            Some(u) => {
                ignored_users.push(u);
            },
            None => {
                proof {
                    assert(parsed_users[k as int] == user_list@[k as int]@);
                    assert(!valid_user_id(parsed_users[k as int]));
                    assert(parse_client(inp@) is None);
                }
                return None;
            },
        }
        k += 1;
    }
    let push_ruleset = match push_raw {
        Some(raw) => Some(crate::state::Ruleset { raw }),
        None => None,
    };
    let c = ClientState { session, sync_token, ignored_users, push_ruleset };
    proof {
        assert(user_ids_view(c.ignored_users@) =~= parsed_users);
    }
    Some(c)
}

/// Decodes a room snapshot from its persisted wire form; accepts exactly
/// the byte strings that `parse_room` accepts.
pub fn decode_room_state(inp: &Vec<u8>) -> (r: Option<RoomState>)
    ensures
        r is Some <==> parse_room(inp@) is Some,
        r matches Some(s) ==> parse_room(inp@) == Some(s@),
{
    let k1 = key_room_id_vec();
    let i1 = match match_lit(inp, 0, &k1) {
        Some(j) => j,
        None => {
            return None;
        },
    };
    let (id_bytes, j1) = match scan_quoted(inp, i1) {
        Some(p) => p,
        None => {
            return None;
        },
    };
    let k2 = key_data_vec();
    let i2 = match match_lit(inp, j1, &k2) {
        Some(j) => j,
        None => {
            return None;
        },
    };
    let (data, j2) = match scan_quoted(inp, i2) {
        Some(p) => p,
        None => {
            return None;
        },
    };
    if !(j2 < inp.len() && inp[j2] == 125 && j2 + 1 == inp.len()) {
        return None;
    }
    match RoomId::new(id_bytes) {
        Some(room_id) => Some(RoomState { room_id, data }),
        None => None,
    }
}

} // verus!
