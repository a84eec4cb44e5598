//! Inversion proofs for the snapshot encoding: the specification parser
//! reads back exactly the value the specification encoder wrote, for every
//! well-formed client and room snapshot.

use vstd::prelude::*;
use crate::codec::{
    key_session, key_sync_token, key_ignored_users, key_push_ruleset, key_user_id,
    key_device_id, key_access_token, key_room_id, key_data, lit_null, esc_byte, esc_text,
    hex_digit, hex_val, quoted, opt_text_enc, text_list_enc, list_enc, session_enc,
    opt_session_enc, encode_client_model, encode_room_model, parse_lit, parse_text_body,
    parse_quoted, parse_opt_text, parse_items, parse_list, parse_session_obj,
    parse_opt_session, parse_client, parse_room,
};
use crate::state::{SessionModel, ClientModel, RoomModel, valid_session, valid_client, valid_room};

verus! {

/// A literal placed at the scan position is consumed exactly.
proof fn lemma_parse_lit_at(pre: Seq<u8>, lit: Seq<u8>, rest: Seq<u8>)
    ensures
        parse_lit(pre + lit + rest, pre.len() as int, lit) == Some(
            pre.len() + lit.len() as int,
        ),
{
    let inp = pre + lit + rest;
    assert(inp.subrange(pre.len() as int, pre.len() + lit.len() as int) =~= lit);
}

/// A literal is rejected where the first byte already differs.
proof fn lemma_parse_lit_mismatch(inp: Seq<u8>, i: int, lit: Seq<u8>)
    requires
        0 <= i < inp.len(),
        lit.len() > 0,
        inp[i] != lit[0],
    ensures
        parse_lit(inp, i, lit) is None,
{
    if i + lit.len() <= inp.len() {
        assert(inp.subrange(i, i + lit.len())[0] == inp[i]);
    }
}

/// A hex digit stands for exactly the value it was made from.
proof fn lemma_hex_digit_val(n: u8)
    requires
        n < 16,
    ensures
        hex_val(hex_digit(n)) == n,
{
}

/// Escaped string content followed by a closing quote scans back to the
/// original bytes.
proof fn lemma_parse_text_at(pre: Seq<u8>, s: Seq<u8>, rest: Seq<u8>)
    ensures
        parse_text_body(pre + esc_text(s) + seq![34u8] + rest, pre.len() as int) == Some(
            (s, pre.len() + esc_text(s).len() + 1 as int),
        ),
    decreases s.len(),
{
    let inp = pre + esc_text(s) + seq![34u8] + rest;
    let i = pre.len() as int;
    if s.len() == 0 {
        assert(esc_text(s) =~= Seq::<u8>::empty());
        assert(inp[i] == 34);
        assert(s =~= Seq::<u8>::empty());
    } else {
        let b = s[0];
        let s1 = s.skip(1);
        assert(esc_text(s) == esc_byte(b) + esc_text(s1));
        if b == 34 || b == 92 {
            let pre1 = pre + seq![92u8, b];
            assert(inp =~= pre1 + esc_text(s1) + seq![34u8] + rest);
            lemma_parse_text_at(pre1, s1, rest);
            assert(esc_byte(b) == seq![92u8, b]);
            assert(inp[i] == 92);
            assert(inp[i + 1] == b);
            assert(parse_text_body(inp, i + 2) == Some(
                (s1, pre1.len() + esc_text(s1).len() + 1 as int),
            ));
            assert(seq![inp[i + 1]] + s1 =~= s);
            assert(esc_text(s).len() == 2 + esc_text(s1).len());
        } else if b < 32 {
            let d1 = hex_digit(b / 16);
            let d2 = hex_digit(b % 16);
            let pre1 = pre + seq![92u8, 117, 48, 48, d1, d2];
            assert(inp =~= pre1 + esc_text(s1) + seq![34u8] + rest);
            lemma_parse_text_at(pre1, s1, rest);
            assert(esc_byte(b) == seq![92u8, 117, 48, 48, d1, d2]);
            assert(inp[i] == 92);
            assert(inp[i + 1] == 117);
            assert(inp[i + 2] == 48);
            assert(inp[i + 3] == 48);
            assert(inp[i + 4] == d1);
            assert(inp[i + 5] == d2);
            lemma_hex_digit_val(b / 16);
            lemma_hex_digit_val(b % 16);
            assert(hex_val(d1) < 16 && hex_val(d2) < 16);
            assert((hex_val(d1) * 16 + hex_val(d2)) as u8 == b);
            assert(parse_text_body(inp, i + 6) == Some(
                (s1, pre1.len() + esc_text(s1).len() + 1 as int),
            ));
            assert(seq![b] + s1 =~= s);
            assert(esc_text(s).len() == 6 + esc_text(s1).len());
        } else {
            let pre1 = pre + seq![b];
            assert(inp =~= pre1 + esc_text(s1) + seq![34u8] + rest);
            lemma_parse_text_at(pre1, s1, rest);
            assert(esc_byte(b) == seq![b]);
            assert(inp[i] == b);
            assert(parse_text_body(inp, i + 1) == Some(
                (s1, pre1.len() + esc_text(s1).len() + 1 as int),
            ));
            assert(seq![inp[i]] + s1 =~= s);
            assert(esc_text(s).len() == 1 + esc_text(s1).len());
        }
    }
}

/// A quoted string placed at the scan position is consumed exactly.
proof fn lemma_parse_quoted_at(pre: Seq<u8>, s: Seq<u8>, rest: Seq<u8>)
    ensures
        parse_quoted(pre + quoted(s) + rest, pre.len() as int) == Some(
            (s, pre.len() + quoted(s).len() as int),
        ),
{
    let inp = pre + quoted(s) + rest;
    let pre1 = pre + seq![34u8];
    assert(inp =~= pre1 + esc_text(s) + seq![34u8] + rest);
    lemma_parse_text_at(pre1, s, rest);
    assert(quoted(s)[0] == 34);
    assert(inp[pre.len() as int] == 34);
    assert(quoted(s).len() == esc_text(s).len() + 2);
}

/// `null` or a quoted string placed at the scan position reads back as the
/// corresponding optional value.
proof fn lemma_parse_opt_text_at(pre: Seq<u8>, t: Option<Seq<u8>>, rest: Seq<u8>)
    ensures
        parse_opt_text(pre + opt_text_enc(t) + rest, pre.len() as int) == Some(
            (t, pre.len() + opt_text_enc(t).len() as int),
        ),
{
    let inp = pre + opt_text_enc(t) + rest;
    let i = pre.len() as int;
    match t {
        None => {
            lemma_parse_lit_at(pre, lit_null(), rest);
        },
        Some(s) => {
            reveal(lit_null);
            assert(quoted(s)[0] == 34);
            assert(inp[i] == 34);
            lemma_parse_lit_mismatch(inp, i, lit_null());
            lemma_parse_quoted_at(pre, s, rest);
        },
    }
}

/// The encoded item list is at least as long as the item count.
proof fn lemma_text_list_len(l: Seq<Seq<u8>>)
    ensures
        text_list_enc(l).len() >= l.len(),
    decreases l.len(),
{
    if l.len() <= 1 {
    } else {
        lemma_text_list_len(l.skip(1));
    }
}

/// The items of a non-empty encoded array, with the closing bracket, read
/// back as exactly those items.
proof fn lemma_parse_items_at(pre: Seq<u8>, l: Seq<Seq<u8>>, rest: Seq<u8>, fuel: nat)
    requires
        l.len() >= 1,
        fuel >= l.len(),
    ensures
        parse_items(pre + text_list_enc(l) + seq![93u8] + rest, pre.len() as int, fuel)
            == Some((l, pre.len() + text_list_enc(l).len() + 1 as int)),
    decreases l.len(),
{
    let inp = pre + text_list_enc(l) + seq![93u8] + rest;
    if l.len() == 1 {
        assert(text_list_enc(l) == quoted(l[0]));
        assert(inp =~= pre + quoted(l[0]) + (seq![93u8] + rest));
        lemma_parse_quoted_at(pre, l[0], seq![93u8] + rest);
        let j = pre.len() + quoted(l[0]).len() as int;
        assert(inp[j] == 93);
        assert(seq![l[0]] =~= l);
    } else {
        let s0 = l[0];
        let l1 = l.skip(1);
        assert(text_list_enc(l) == quoted(s0) + seq![44u8] + text_list_enc(l1));
        let rest1 = seq![44u8] + text_list_enc(l1) + seq![93u8] + rest;
        assert(inp =~= pre + quoted(s0) + rest1);
        lemma_parse_quoted_at(pre, s0, rest1);
        let j = pre.len() + quoted(s0).len() as int;
        assert(inp[j] == 44);
        let pre1 = pre + quoted(s0) + seq![44u8];
        assert(inp =~= pre1 + text_list_enc(l1) + seq![93u8] + rest);
        lemma_parse_items_at(pre1, l1, rest, (fuel - 1) as nat);
        assert(seq![s0] + l1 =~= l);
    }
}

/// A bracketed array placed at the scan position reads back as its items.
proof fn lemma_parse_list_at(pre: Seq<u8>, l: Seq<Seq<u8>>, rest: Seq<u8>)
    ensures
        parse_list(pre + list_enc(l) + rest, pre.len() as int) == Some(
            (l, pre.len() + list_enc(l).len() as int),
        ),
{
    let inp = pre + list_enc(l) + rest;
    let i = pre.len() as int;
    assert(list_enc(l)[0] == 91);
    assert(inp[i] == 91);
    if l.len() == 0 {
        assert(text_list_enc(l) == Seq::<u8>::empty());
        assert(list_enc(l) =~= seq![91u8, 93u8]);
        assert(inp[i + 1] == 93);
        assert(l =~= Seq::<Seq<u8>>::empty());
    } else {
        assert(quoted(l[0])[0] == 34);
        assert(text_list_enc(l)[0] == 34);
        assert(list_enc(l)[1] == 34);
        assert(inp[i + 1] == 34);
        let pre1 = pre + seq![91u8];
        assert(inp =~= pre1 + text_list_enc(l) + seq![93u8] + rest);
        lemma_text_list_len(l);
        assert(inp.len() >= l.len());
        lemma_parse_items_at(pre1, l, rest, inp.len() as nat);
    }
}

/// A session object placed at the scan position reads back as the session.
#[verifier::rlimit(100)]
proof fn lemma_parse_session_at(pre: Seq<u8>, m: SessionModel, rest: Seq<u8>)
    requires
        valid_session(m),
    ensures
        parse_session_obj(pre + session_enc(m) + rest, pre.len() as int) == Some(
            (m, pre.len() + session_enc(m).len() as int),
        ),
{
    let inp = pre + session_enc(m) + rest;
    let a1 = key_user_id();
    let b1 = quoted(m.user_id);
    let a2 = key_device_id();
    let b2 = quoted(m.device_id);
    let a3 = key_access_token();
    let b3 = quoted(m.access_token);
    assert(session_enc(m) == a1 + b1 + a2 + b2 + a3 + b3 + seq![125u8]);

    assert(inp =~= pre + a1 + (b1 + a2 + b2 + a3 + b3 + seq![125u8] + rest));
    lemma_parse_lit_at(pre, a1, b1 + a2 + b2 + a3 + b3 + seq![125u8] + rest);
    let p1 = pre + a1;

    assert(inp =~= p1 + b1 + (a2 + b2 + a3 + b3 + seq![125u8] + rest));
    lemma_parse_quoted_at(p1, m.user_id, a2 + b2 + a3 + b3 + seq![125u8] + rest);
    let p2 = p1 + b1;

    assert(inp =~= p2 + a2 + (b2 + a3 + b3 + seq![125u8] + rest));
    lemma_parse_lit_at(p2, a2, b2 + a3 + b3 + seq![125u8] + rest);
    let p3 = p2 + a2;

    assert(inp =~= p3 + b2 + (a3 + b3 + seq![125u8] + rest));
    lemma_parse_quoted_at(p3, m.device_id, a3 + b3 + seq![125u8] + rest);
    let p4 = p3 + b2;

    assert(inp =~= p4 + a3 + (b3 + seq![125u8] + rest));
    lemma_parse_lit_at(p4, a3, b3 + seq![125u8] + rest);
    let p5 = p4 + a3;

    assert(inp =~= p5 + b3 + (seq![125u8] + rest));
    lemma_parse_quoted_at(p5, m.access_token, seq![125u8] + rest);
    let p6 = p5 + b3;

    assert(inp[p6.len() as int] == 125);
}

/// `null` or a session object placed at the scan position reads back as the
/// corresponding optional session.
proof fn lemma_parse_opt_session_at(pre: Seq<u8>, t: Option<SessionModel>, rest: Seq<u8>)
    requires
        t matches Some(m) ==> valid_session(m),
    ensures
        parse_opt_session(pre + opt_session_enc(t) + rest, pre.len() as int) == Some(
            (t, pre.len() + opt_session_enc(t).len() as int),
        ),
{
    let inp = pre + opt_session_enc(t) + rest;
    let i = pre.len() as int;
    match t {
        None => {
            lemma_parse_lit_at(pre, lit_null(), rest);
        },
        Some(m) => {
            reveal(lit_null);
            reveal(key_user_id);
            assert(key_user_id()[0] == 123);
            assert(session_enc(m)[0] == 123);
            assert(inp[i] == 123);
            lemma_parse_lit_mismatch(inp, i, lit_null());
            lemma_parse_session_at(pre, m, rest);
        },
    }
}

/// Scan position after the opening key of the client snapshot.
spec fn after_key_session(m: ClientModel) -> int {
    key_session().len() as int
}

/// Scan position after the encoded session field.
spec fn after_session(m: ClientModel) -> int {
    after_key_session(m) + opt_session_enc(m.session).len()
}

/// Scan position after the sync-token key.
spec fn after_key_sync(m: ClientModel) -> int {
    after_session(m) + key_sync_token().len()
}

/// Scan position after the encoded sync token.
spec fn after_sync(m: ClientModel) -> int {
    after_key_sync(m) + opt_text_enc(m.sync_token).len()
}

/// Scan position after the ignored-users key.
spec fn after_key_ignored(m: ClientModel) -> int {
    after_sync(m) + key_ignored_users().len()
}

/// Scan position after the encoded ignored-users array.
spec fn after_list(m: ClientModel) -> int {
    after_key_ignored(m) + list_enc(m.ignored_users).len()
}

/// Scan position after the push-ruleset key.
spec fn after_key_push(m: ClientModel) -> int {
    after_list(m) + key_push_ruleset().len()
}

/// Scan position after the encoded push ruleset.
spec fn after_push(m: ClientModel) -> int {
    after_key_push(m) + opt_text_enc(m.push_ruleset).len()
}

/// Client parse chain, session field: the opening key and the session
/// value read back from the encoded snapshot.
#[verifier::rlimit(100)]
proof fn lemma_client_chain_session(m: ClientModel)
    requires
        valid_client(m),
    ensures
        parse_lit(encode_client_model(m), 0, key_session()) == Some(after_key_session(m)),
        parse_opt_session(encode_client_model(m), after_key_session(m)) == Some(
            (m.session, after_session(m)),
        ),
{
    let inp = encode_client_model(m);
    let k1 = key_session();
    let e1 = opt_session_enc(m.session);
    let k2 = key_sync_token();
    let e2 = opt_text_enc(m.sync_token);
    let k3 = key_ignored_users();
    let e3 = list_enc(m.ignored_users);
    let k4 = key_push_ruleset();
    let e4 = opt_text_enc(m.push_ruleset);
    assert(inp == k1 + e1 + k2 + e2 + k3 + e3 + k4 + e4 + seq![125u8]);

    let p0 = Seq::<u8>::empty();
    assert(inp =~= p0 + k1 + (e1 + k2 + e2 + k3 + e3 + k4 + e4 + seq![125u8]));
    lemma_parse_lit_at(p0, k1, e1 + k2 + e2 + k3 + e3 + k4 + e4 + seq![125u8]);
    let p1 = p0 + k1;

    assert(inp =~= p1 + e1 + (k2 + e2 + k3 + e3 + k4 + e4 + seq![125u8]));
    lemma_parse_opt_session_at(p1, m.session, k2 + e2 + k3 + e3 + k4 + e4 + seq![125u8]);
}

/// Client parse chain, sync-token field.
#[verifier::rlimit(100)]
proof fn lemma_client_chain_sync(m: ClientModel)
    requires
        valid_client(m),
    ensures
        parse_lit(encode_client_model(m), after_session(m), key_sync_token()) == Some(
            after_key_sync(m),
        ),
        parse_opt_text(encode_client_model(m), after_key_sync(m)) == Some(
            (m.sync_token, after_sync(m)),
        ),
{
    let inp = encode_client_model(m);
    let k1 = key_session();
    let e1 = opt_session_enc(m.session);
    let k2 = key_sync_token();
    let e2 = opt_text_enc(m.sync_token);
    let k3 = key_ignored_users();
    let e3 = list_enc(m.ignored_users);
    let k4 = key_push_ruleset();
    let e4 = opt_text_enc(m.push_ruleset);
    assert(inp == k1 + e1 + k2 + e2 + k3 + e3 + k4 + e4 + seq![125u8]);
    let p2 = k1 + e1;
    assert(p2.len() == after_session(m));

    assert(inp =~= p2 + k2 + (e2 + k3 + e3 + k4 + e4 + seq![125u8]));
    lemma_parse_lit_at(p2, k2, e2 + k3 + e3 + k4 + e4 + seq![125u8]);
    let p3 = p2 + k2;

    assert(inp =~= p3 + e2 + (k3 + e3 + k4 + e4 + seq![125u8]));
    lemma_parse_opt_text_at(p3, m.sync_token, k3 + e3 + k4 + e4 + seq![125u8]);
}

/// Second half of the client parse chain: the ignored-users and
/// push-ruleset fields and the closing brace.
#[verifier::rlimit(100)]
proof fn lemma_client_chain_tail(m: ClientModel)
    requires
        valid_client(m),
    ensures
        parse_lit(encode_client_model(m), after_sync(m), key_ignored_users()) == Some(
            after_key_ignored(m),
        ),
        parse_list(encode_client_model(m), after_key_ignored(m)) == Some(
            (m.ignored_users, after_list(m)),
        ),
        parse_lit(encode_client_model(m), after_list(m), key_push_ruleset()) == Some(
            after_key_push(m),
        ),
        parse_opt_text(encode_client_model(m), after_key_push(m)) == Some(
            (m.push_ruleset, after_push(m)),
        ),
        after_push(m) + 1 == encode_client_model(m).len(),
        encode_client_model(m)[after_push(m)] == 125,
{
    let inp = encode_client_model(m);
    let k1 = key_session();
    let e1 = opt_session_enc(m.session);
    let k2 = key_sync_token();
    let e2 = opt_text_enc(m.sync_token);
    let k3 = key_ignored_users();
    let e3 = list_enc(m.ignored_users);
    let k4 = key_push_ruleset();
    let e4 = opt_text_enc(m.push_ruleset);
    assert(inp == k1 + e1 + k2 + e2 + k3 + e3 + k4 + e4 + seq![125u8]);
    let p4 = k1 + e1 + k2 + e2;
    assert(p4.len() == after_sync(m));

    assert(inp =~= p4 + k3 + (e3 + k4 + e4 + seq![125u8]));
    lemma_parse_lit_at(p4, k3, e3 + k4 + e4 + seq![125u8]);
    let p5 = p4 + k3;

    assert(inp =~= p5 + e3 + (k4 + e4 + seq![125u8]));
    lemma_parse_list_at(p5, m.ignored_users, k4 + e4 + seq![125u8]);
    let p6 = p5 + e3;

    assert(inp =~= p6 + k4 + (e4 + seq![125u8]));
    lemma_parse_lit_at(p6, k4, e4 + seq![125u8]);
    let p7 = p6 + k4;

    assert(inp =~= p7 + e4 + seq![125u8]);
    lemma_parse_opt_text_at(p7, m.push_ruleset, seq![125u8]);
    let p8 = p7 + e4;

    assert(inp[p8.len() as int] == 125);
    assert(p8.len() + 1 == inp.len());
}

/// Round trip of the client snapshot encoding: decoding what was encoded
/// yields the original value, for every well-formed snapshot.
pub proof fn lemma_client_round_trip(m: ClientModel)
    requires
        valid_client(m),
    ensures
        parse_client(encode_client_model(m)) == Some(m),
{
    lemma_client_chain_session(m);
    lemma_client_chain_sync(m);
    lemma_client_chain_tail(m);
}

/// Round trip of the room snapshot encoding, for every well-formed room
/// snapshot, independently of any other room's record.
pub proof fn lemma_room_round_trip(m: RoomModel)
    requires
        valid_room(m),
    ensures
        parse_room(encode_room_model(m)) == Some(m),
{
    let inp = encode_room_model(m);
    let a1 = key_room_id();
    let b1 = quoted(m.room_id);
    let a2 = key_data();
    let b2 = quoted(m.data);
    assert(inp == a1 + b1 + a2 + b2 + seq![125u8]);

    let p0 = Seq::<u8>::empty();
    assert(inp =~= p0 + a1 + (b1 + a2 + b2 + seq![125u8]));
    lemma_parse_lit_at(p0, a1, b1 + a2 + b2 + seq![125u8]);
    let p1 = p0 + a1;

    assert(inp =~= p1 + b1 + (a2 + b2 + seq![125u8]));
    lemma_parse_quoted_at(p1, m.room_id, a2 + b2 + seq![125u8]);
    let p2 = p1 + b1;

    assert(inp =~= p2 + a2 + (b2 + seq![125u8]));
    lemma_parse_lit_at(p2, a2, b2 + seq![125u8]);
    let p3 = p2 + a2;

    assert(inp =~= p3 + b2 + seq![125u8]);
    lemma_parse_quoted_at(p3, m.data, seq![125u8]);
    let p4 = p3 + b2;

    assert(inp[p4.len() as int] == 125);
    assert(p4.len() + 1 == inp.len());
}

} // verus!
