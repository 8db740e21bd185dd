//! The on-disk form of a conversation and its proof of round-tripping.
//!
//! A session is persisted as a JSON array of objects, one per turn:
//! `[{"role":"user","content":"..."},...]`. The writer emits exactly this
//! canonical form; the reader accepts it and rejects everything else with an
//! explicit read error instead of substituting an empty conversation.

use crate::model::{pairs_of, ChatError, Role, Turn};
use vstd::prelude::*;

verus! {

// ---------------------------------------------------------------------------
// The document, written.
// ---------------------------------------------------------------------------
/// How one character of message text is written inside a JSON string.
pub open spec fn esc_char(c: char) -> Seq<char> {
    if c == '"' {
        seq!['\\', '"']
    } else if c == '\\' {
        seq!['\\', '\\']
    } else if c == '\n' {
        seq!['\\', 'n']
    } else if c == '\r' {
        seq!['\\', 'r']
    } else if c == '\t' {
        seq!['\\', 't']
    } else {
        seq![c]
    }
}

/// Message text, escaped for a JSON string.
pub open spec fn esc_str(s: Seq<char>) -> Seq<char>
    decreases s.len(),
{
    if s.len() == 0 {
        Seq::empty()
    } else {
        esc_char(s[0]) + esc_str(s.drop_first())
    }
}

/// The name a role is written as.
pub open spec fn role_chars(r: Role) -> Seq<char> {
    match r {
        Role::User => seq!['u', 's', 'e', 'r'],
        Role::Assistant => seq!['a', 's', 's', 'i', 's', 't', 'a', 'n', 't'],
        Role::System => seq!['s', 'y', 's', 't', 'e', 'm'],
    }
}

/// `{"role":"` — what opens every turn object.
pub open spec fn turn_open() -> Seq<char> {
    seq!['{', '"', 'r', 'o', 'l', 'e', '"', ':', '"']
}

/// `,"content":"` — between the role string and the content string.
pub open spec fn turn_mid() -> Seq<char> {
    seq![',', '"', 'c', 'o', 'n', 't', 'e', 'n', 't', '"', ':', '"']
}

/// One turn, written as a JSON object.
pub open spec fn turn_json(role: Role, content: Seq<char>) -> Seq<char> {
    turn_open() + role_chars(role) + seq!['"'] + turn_mid() + esc_str(content) + seq!['"'] + seq![
        '}',
    ]
}

/// One or more turns, comma-separated.
pub open spec fn turns_inner(ts: Seq<(Role, Seq<char>)>) -> Seq<char>
    decreases ts.len(),
{
    if ts.len() == 0 {
        Seq::empty()
    } else if ts.len() == 1 {
        turn_json(ts[0].0, ts[0].1)
    } else {
        turn_json(ts[0].0, ts[0].1) + seq![','] + turns_inner(ts.drop_first())
    }
}

/// A whole session document: the JSON array of its turns.
pub open spec fn doc_json(ts: Seq<(Role, Seq<char>)>) -> Seq<char> {
    seq!['['] + turns_inner(ts) + seq![']']
}

// ---------------------------------------------------------------------------
// The document, read. Each parser consumes a prefix and returns the parsed
// value together with the unread rest, or nothing if the input does not
// start with what it expects.
// ---------------------------------------------------------------------------
/// The character an escape letter stands for, if it is a valid one.
pub open spec fn unesc(e: char) -> Option<char> {
    if e == '"' {
        Some('"')
    } else if e == '\\' {
        Some('\\')
    } else if e == 'n' {
        Some('\n')
    } else if e == 'r' {
        Some('\r')
    } else if e == 't' {
        Some('\t')
    } else {
        None
    }
}

/// Reads a JSON string body up to and including its closing quote.
pub open spec fn p_string(s: Seq<char>) -> Option<(Seq<char>, Seq<char>)>
    decreases s.len(),
{
    if s.len() == 0 {
        None
    } else if s[0] == '"' {
        Some((Seq::empty(), s.drop_first()))
    } else if s[0] == '\\' {
        if s.len() >= 2 && unesc(s[1]) is Some {
            match p_string(s.skip(2)) {
                Some((v, rest)) => Some((seq![unesc(s[1])->0] + v, rest)),
                None => None,
            }
        } else {
            None
        }
    } else {
        match p_string(s.drop_first()) {
            Some((v, rest)) => Some((seq![s[0]] + v, rest)),
            None => None,
        }
    }
}

/// Reads an expected literal.
pub open spec fn p_lit(s: Seq<char>, lit: Seq<char>) -> Option<Seq<char>> {
    if lit.len() <= s.len() && s.take(lit.len() as int) == lit {
        Some(s.skip(lit.len() as int))
    } else {
        None
    }
}

/// The role a role string names, if any.
pub open spec fn role_of(rcs: Seq<char>) -> Option<Role> {
    if rcs == role_chars(Role::User) {
        Some(Role::User)
    } else if rcs == role_chars(Role::Assistant) {
        Some(Role::Assistant)
    } else if rcs == role_chars(Role::System) {
        Some(Role::System)
    } else {
        None
    }
}

/// Reads one turn object.
pub open spec fn p_turn(s: Seq<char>) -> Option<((Role, Seq<char>), Seq<char>)> {
    match p_lit(s, turn_open()) {
        None => None,
        Some(s1) => match p_string(s1) {
            None => None,
            Some((rcs, s2)) => match role_of(rcs) {
                None => None,
                Some(role) => match p_lit(s2, turn_mid()) {
                    None => None,
                    Some(s3) => match p_string(s3) {
                        None => None,
                        Some((content, s4)) => match p_lit(s4, seq!['}']) {
                            None => None,
                            Some(s5) => Some(((role, content), s5)),
                        },
                    },
                },
            },
        },
    }
}

/// Reads one or more comma-separated turn objects.
pub open spec fn p_turns(s: Seq<char>) -> Option<(Seq<(Role, Seq<char>)>, Seq<char>)>
    decreases s.len(),
{
    match p_turn(s) {
        None => None,
        Some((t, s1)) => if s1.len() > 0 && s1[0] == ',' {
            let s2 = s1.drop_first();
            if s2.len() < s.len() {
                match p_turns(s2) {
                    None => None,
                    Some((ts, s3)) => Some((seq![t] + ts, s3)),
                }
            } else {
                None
            }
        } else {
            Some((seq![t], s1))
        },
    }
}

/// Reads a whole session document; the entire input must be consumed.
pub open spec fn p_doc(s: Seq<char>) -> Option<Seq<(Role, Seq<char>)>> {
    if s.len() >= 1 && s[0] == '[' {
        let s1 = s.drop_first();
        if s1.len() == 1 && s1[0] == ']' {
            Some(Seq::empty())
        } else {
            match p_turns(s1) {
                None => None,
                Some((ts, rest)) => if rest.len() == 1 && rest[0] == ']' {
                    Some(ts)
                } else {
                    None
                },
            }
        }
    } else {
        None
    }
}

// ---------------------------------------------------------------------------
// Round trip: reading what was written yields the same turns.
// ---------------------------------------------------------------------------
/// A literal at the front of the input is read and leaves exactly the rest.
proof fn lemma_p_lit_prefix(lit: Seq<char>, rest: Seq<char>)
    ensures
        p_lit(lit + rest, lit) == Some(rest),
{
    let s = lit + rest;
    assert(s.take(lit.len() as int) =~= lit);
    assert(s.skip(lit.len() as int) =~= rest);
}

/// An escaped string followed by its closing quote reads back as the
/// original characters.
proof fn lemma_p_string_esc(v: Seq<char>, rest: Seq<char>)
    ensures
        p_string(esc_str(v) + seq!['"'] + rest) == Some((v, rest)),
    decreases v.len(),
{
    let s = esc_str(v) + seq!['"'] + rest;
    if v.len() == 0 {
        assert(s =~= seq!['"'] + rest);
        assert(s[0] == '"');
        assert(s.drop_first() =~= rest);
        assert(v =~= Seq::<char>::empty());
    } else {
        let c = v[0];
        let v1 = v.drop_first();
        assert(esc_str(v) == esc_char(c) + esc_str(v1));
        lemma_p_string_esc(v1, rest);
        if c == '"' || c == '\\' || c == '\n' || c == '\r' || c == '\t' {
            let e: char = if c == '"' {
                '"'
            } else if c == '\\' {
                '\\'
            } else if c == '\n' {
                'n'
            } else if c == '\r' {
                'r'
            } else {
                't'
            };
            assert(esc_char(c) =~= seq!['\\', e]);
            assert(s =~= seq!['\\', e] + (esc_str(v1) + seq!['"'] + rest));
            assert(s[0] == '\\');
            assert(s[1] == e);
            assert(unesc(e) == Some(c));
            assert(s.skip(2) =~= esc_str(v1) + seq!['"'] + rest);
            assert(seq![c] + v1 =~= v);
        } else {
            assert(esc_char(c) =~= seq![c]);
            assert(s =~= seq![c] + (esc_str(v1) + seq!['"'] + rest));
            assert(s[0] == c);
            assert(s.drop_first() =~= esc_str(v1) + seq!['"'] + rest);
            assert(seq![c] + v1 =~= v);
        }
    }
}

/// Role names contain no character that needs escaping.
proof fn lemma_esc_str_role(r: Role)
    ensures
        esc_str(role_chars(r)) == role_chars(r),
{
    let cs = role_chars(r);
    assert forall|i: int| 0 <= i < cs.len() implies esc_char(cs[i]) == seq![cs[i]] by {
        reveal_with_fuel(esc_str, 1);
    }
    lemma_esc_str_plain(cs);
}

/// Escaping text whose characters all stand for themselves changes nothing.
proof fn lemma_esc_str_plain(s: Seq<char>)
    requires
        forall|i: int| 0 <= i < s.len() ==> esc_char(s[i]) == seq![s[i]],
    ensures
        esc_str(s) == s,
    decreases s.len(),
{
    if s.len() == 0 {
        assert(esc_str(s) =~= s);
    } else {
        lemma_esc_str_plain(s.drop_first());
        assert(esc_str(s) =~= seq![s[0]] + s.drop_first());
        assert(seq![s[0]] + s.drop_first() =~= s);
    }
}

/// One written turn object reads back as the same role and content.
proof fn lemma_p_turn(role: Role, content: Seq<char>, rest: Seq<char>)
    ensures
        p_turn(turn_json(role, content) + rest) == Some(((role, content), rest)),
{
    let s = turn_json(role, content) + rest;
    let x1 = role_chars(role) + seq!['"'] + (turn_mid() + esc_str(content) + seq!['"'] + (seq![
        '}',
    ] + rest));
    assert(s =~= turn_open() + x1);
    lemma_p_lit_prefix(turn_open(), x1);
    assert(p_lit(s, turn_open()) == Some(x1));
    let y1 = turn_mid() + esc_str(content) + seq!['"'] + (seq!['}'] + rest);
    lemma_esc_str_role(role);
    assert(x1 =~= esc_str(role_chars(role)) + seq!['"'] + y1);
    lemma_p_string_esc(role_chars(role), y1);
    assert(p_string(x1) == Some((role_chars(role), y1)));
    assert(role_of(role_chars(role)) == Some(role)) by {
        if role == Role::User {
        } else if role == Role::Assistant {
            assert(role_chars(Role::Assistant) != role_chars(Role::User)) by {
                assert(role_chars(Role::Assistant).len() != role_chars(Role::User).len());
            }
        } else {
            assert(role_chars(Role::System) != role_chars(Role::User)) by {
                assert(role_chars(Role::System).len() != role_chars(Role::User).len());
            }
            assert(role_chars(Role::System) != role_chars(Role::Assistant)) by {
                assert(role_chars(Role::System).len() != role_chars(Role::Assistant).len());
            }
        }
    }
    let y2 = esc_str(content) + seq!['"'] + (seq!['}'] + rest);
    assert(y1 =~= turn_mid() + y2);
    lemma_p_lit_prefix(turn_mid(), y2);
    assert(p_lit(y1, turn_mid()) == Some(y2));
    lemma_p_string_esc(content, seq!['}'] + rest);
    assert(p_string(y2) == Some((content, seq!['}'] + rest)));
    lemma_p_lit_prefix(seq!['}'], rest);
    assert(p_lit(seq!['}'] + rest, seq!['}']) == Some(rest));
}

/// Written turns followed by anything but a comma read back as the same
/// sequence of turns.
proof fn lemma_p_turns(ts: Seq<(Role, Seq<char>)>, rest: Seq<char>)
    requires
        ts.len() >= 1,
        rest.len() == 0 || rest[0] != ',',
    ensures
        p_turns(turns_inner(ts) + rest) == Some((ts, rest)),
    decreases ts.len(),
{
    let s = turns_inner(ts) + rest;
    if ts.len() == 1 {
        assert(s =~= turn_json(ts[0].0, ts[0].1) + rest);
        lemma_p_turn(ts[0].0, ts[0].1, rest);
        assert(p_turn(s) == Some((ts[0], rest)));
        assert(seq![ts[0]] =~= ts);
    } else {
        let ts1 = ts.drop_first();
        let s1 = seq![','] + (turns_inner(ts1) + rest);
        assert(s =~= turn_json(ts[0].0, ts[0].1) + s1);
        lemma_p_turn(ts[0].0, ts[0].1, s1);
        assert(p_turn(s) == Some((ts[0], s1)));
        assert(s1[0] == ',');
        assert(s1.drop_first() =~= turns_inner(ts1) + rest);
        assert(turn_json(ts[0].0, ts[0].1).len() > 0) by {
            assert(turn_open().len() == 9);
        }
        assert(s1.drop_first().len() < s.len());
        lemma_p_turns(ts1, rest);
        assert(p_turns(s1.drop_first()) == Some((ts1, rest)));
        assert(seq![ts[0]] + ts1 =~= ts);
    }
}

/// Escaping one more character appends its escape.
proof fn lemma_esc_str_snoc(s: Seq<char>, c: char)
    ensures
        esc_str(s.push(c)) == esc_str(s) + esc_char(c),
    decreases s.len(),
{
    if s.len() == 0 {
        assert(s.push(c) =~= seq![c]);
        assert(seq![c].drop_first() =~= Seq::<char>::empty());
        assert(seq![c][0] == c);
        assert(esc_str(seq![c]) == esc_char(c) + esc_str(Seq::<char>::empty()));
        assert(esc_char(c) + Seq::<char>::empty() =~= esc_char(c));
        assert(esc_str(s) + esc_char(c) =~= esc_char(c));
    } else {
        assert(s.push(c)[0] == s[0]);
        assert(s.push(c).drop_first() =~= s.drop_first().push(c));
        lemma_esc_str_snoc(s.drop_first(), c);
        assert(esc_str(s.push(c)) =~= esc_str(s) + esc_char(c));
    }
}

/// Writing one more turn appends a comma and its object.
proof fn lemma_inner_snoc(ts: Seq<(Role, Seq<char>)>, t: (Role, Seq<char>))
    requires
        ts.len() >= 1,
    ensures
        turns_inner(ts.push(t)) == turns_inner(ts) + seq![','] + turn_json(t.0, t.1),
    decreases ts.len(),
{
    let ts2 = ts.push(t);
    assert(ts2[0] == ts[0]);
    if ts.len() == 1 {
        assert(ts2.drop_first() =~= seq![t]);
        assert(turns_inner(seq![t]) == turn_json(t.0, t.1));
        assert(turns_inner(ts2) =~= turns_inner(ts) + seq![','] + turn_json(t.0, t.1));
    } else {
        assert(ts2.drop_first() =~= ts.drop_first().push(t));
        lemma_inner_snoc(ts.drop_first(), t);
        assert(turns_inner(ts2) =~= turns_inner(ts) + seq![','] + turn_json(t.0, t.1));
    }
}

/// Round trip: reading a written session document yields exactly the
/// ordered (role, content) pairs that were written.
pub proof fn lemma_doc_round_trip(ts: Seq<(Role, Seq<char>)>)
    ensures
        p_doc(doc_json(ts)) == Some(ts),
{
    let s = doc_json(ts);
    assert(s[0] == '[');
    let s1 = s.drop_first();
    assert(s1 =~= turns_inner(ts) + seq![']']);
    if ts.len() == 0 {
        assert(s1 =~= seq![']']);
        assert(ts =~= Seq::<(Role, Seq<char>)>::empty());
    } else {
        assert(turns_inner(ts).len() > 0) by {
            assert(turn_open().len() == 9);
            if ts.len() == 1 {
            } else {
            }
        }
        assert(!(s1.len() == 1 && s1[0] == ']'));
        lemma_p_turns(ts, seq![']']);
        assert(p_turns(s1) == Some((ts, seq![']'])));
    }
}

// ---------------------------------------------------------------------------
// The writer.
// ---------------------------------------------------------------------------
/// Appends every character of `src`.
fn push_all(out: &mut Vec<char>, src: &Vec<char>)
    ensures
        final(out)@ == old(out)@ + src@,
{
    let ghost base = out@;
    let mut k: usize = 0;
    while k < src.len()
        invariant
            k <= src@.len(),
            out@ == base + src@.take(k as int),
        decreases src@.len() - k,
    {
        out.push(src[k]);
        k = k + 1;
        assert(out@ =~= base + src@.take(k as int));
    }
    assert(base + src@.take(src@.len() as int) =~= base + src@);
}

/// The opening literal of a turn object, as characters.
fn turn_open_vec() -> (v: Vec<char>)
    ensures
        v@ == turn_open(),
{
    let mut v: Vec<char> = Vec::new();
    v.push('{');
    v.push('"');
    v.push('r');
    v.push('o');
    v.push('l');
    v.push('e');
    v.push('"');
    v.push(':');
    v.push('"');
    proof {
        assert(v@ =~= turn_open());
    }
    v
}

/// The middle literal of a turn object, as characters.
fn turn_mid_vec() -> (v: Vec<char>)
    ensures
        v@ == turn_mid(),
{
    let mut v: Vec<char> = Vec::new();
    v.push(',');
    v.push('"');
    v.push('c');
    v.push('o');
    v.push('n');
    v.push('t');
    v.push('e');
    v.push('n');
    v.push('t');
    v.push('"');
    v.push(':');
    v.push('"');
    proof {
        assert(v@ =~= turn_mid());
    }
    v
}

/// The written name of a role, as characters.
fn role_vec(r: Role) -> (v: Vec<char>)
    ensures
        v@ == role_chars(r),
{
    let mut v: Vec<char> = Vec::new();
    match r {
        Role::User => {
            v.push('u');
            v.push('s');
            v.push('e');
            v.push('r');
        },
        Role::Assistant => {
            v.push('a');
            v.push('s');
            v.push('s');
            v.push('i');
            v.push('s');
            v.push('t');
            v.push('a');
            v.push('n');
            v.push('t');
        },
        Role::System => {
            v.push('s');
            v.push('y');
            v.push('s');
            v.push('t');
            v.push('e');
            v.push('m');
        },
    }
    proof {
        assert(v@ =~= role_chars(r));
    }
    v
}

/// Appends one character of message text, escaped.
fn push_esc(out: &mut Vec<char>, c: char)
    ensures
        final(out)@ == old(out)@ + esc_char(c),
{
    if c == '"' {
        out.push('\\');
        out.push('"');
    } else if c == '\\' {
        out.push('\\');
        out.push('\\');
    } else if c == '\n' {
        out.push('\\');
        out.push('n');
    } else if c == '\r' {
        out.push('\\');
        out.push('r');
    } else if c == '\t' {
        out.push('\\');
        out.push('t');
    } else {
        out.push(c);
    }
    assert(out@ =~= old(out)@ + esc_char(c));
}

/// Appends message text, escaped.
fn push_esc_str(out: &mut Vec<char>, text: &String)
    ensures
        final(out)@ == old(out)@ + esc_str(text@),
{
    let ghost base = out@;
    let cs = crate::text::chars_of(text.as_str());
    let mut k: usize = 0;
    assert(esc_str(text@.take(0)) =~= Seq::<char>::empty());
    assert(out@ =~= base + esc_str(text@.take(0)));
    while k < cs.len()
        invariant
            k <= cs@.len(),
            cs@ == text@,
            out@ == base + esc_str(text@.take(k as int)),
        decreases cs@.len() - k,
    {
        push_esc(out, cs[k]);
        proof {
            assert(text@.take(k as int + 1) =~= text@.take(k as int).push(text@[k as int]));
            lemma_esc_str_snoc(text@.take(k as int), text@[k as int]);
            assert((base + esc_str(text@.take(k as int))) + esc_char(text@[k as int]) =~= base
                + esc_str(text@.take(k as int + 1)));
        }
        k = k + 1;
    }
    assert(text@.take(cs@.len() as int) =~= text@);
}

/// Appends one turn, written as its JSON object.
fn push_turn(out: &mut Vec<char>, t: &Turn)
    ensures
        final(out)@ == old(out)@ + turn_json(t.role, t.content@),
{
    let ghost base = out@;
    let open = turn_open_vec();
    push_all(out, &open);
    let rv = role_vec(t.role);
    push_all(out, &rv);
    out.push('"');
    let mid = turn_mid_vec();
    push_all(out, &mid);
    push_esc_str(out, &t.content);
    out.push('"');
    out.push('}');
    assert(out@ =~= base + turn_json(t.role, t.content@));
}

/// Writes a session's turns as their canonical JSON document. This is the
/// entire persisted form: roles and contents, never display blocks.
pub fn encode_session(turns: &Vec<Turn>) -> (s: String)
    ensures
        s@ == doc_json(pairs_of(turns@)),
{
    let ghost ps = pairs_of(turns@);
    let mut out: Vec<char> = Vec::new();
    out.push('[');
    proof {
        assert(ps.take(0) =~= Seq::<(Role, Seq<char>)>::empty());
        assert(out@ =~= seq!['['] + turns_inner(ps.take(0)));
    }
    let mut i: usize = 0;
    while i < turns.len()
        invariant
            i <= turns@.len(),
            ps == pairs_of(turns@),
            out@ == seq!['['] + turns_inner(ps.take(i as int)),
        decreases turns@.len() - i,
    {
        let ghost before = out@;
        if i > 0 {
            out.push(',');
        }
        push_turn(&mut out, &turns[i]);
        proof {
            assert(ps[i as int] == (turns@[i as int].role, turns@[i as int].content@));
            assert(ps.take(i as int + 1) =~= ps.take(i as int).push(ps[i as int]));
            if i == 0 {
                assert(turns_inner(ps.take(1)) =~= turn_json(ps[0].0, ps[0].1)) by {
                    assert(ps.take(1).len() == 1);
                    assert(ps.take(1)[0] == ps[0]);
                }
                assert(out@ =~= seq!['['] + turns_inner(ps.take(1)));
            } else {
                lemma_inner_snoc(ps.take(i as int), ps[i as int]);
                assert(out@ =~= seq!['['] + turns_inner(ps.take(i as int + 1)));
            }
        }
        i = i + 1;
    }
    out.push(']');
    proof {
        assert(ps.take(turns@.len() as int) =~= ps);
        assert(out@ =~= doc_json(ps));
    }
    let s = crate::text::string_from(&out, 0);
    proof {
        assert(out@.skip(0) =~= out@);
    }
    s
}

// ---------------------------------------------------------------------------
// The reader.
// ---------------------------------------------------------------------------
/// The (role, content) views of parsed pairs.
pub open spec fn pair_views(s: Seq<(Role, String)>) -> Seq<(Role, Seq<char>)> {
    Seq::new(s.len(), |i: int| (s[i].0, s[i].1@))
}

/// The character an escape letter stands for, if any.
fn unesc_exec(e: char) -> (r: Option<char>)
    ensures
        r == unesc(e),
{
    if e == '"' {
        Some('"')
    } else if e == '\\' {
        Some('\\')
    } else if e == 'n' {
        Some('\n')
    } else if e == 'r' {
        Some('\r')
    } else if e == 't' {
        Some('\t')
    } else {
        None
    }
}

/// Reads an expected literal at position `i`.
fn parse_lit(v: &Vec<char>, i: usize, lit: &Vec<char>) -> (r: Option<usize>)
    requires
        i <= v@.len(),
    ensures
        match r {
            Some(j) => i <= j <= v@.len() && j == i + lit@.len() && p_lit(v@.skip(i as int), lit@)
                == Some(v@.skip(j as int)),
            None => p_lit(v@.skip(i as int), lit@) is None,
        },
{
    let ghost s = v@.skip(i as int);
    if v.len() - i < lit.len() {
        proof {
            assert(s.len() < lit@.len());
        }
        return None;
    }
    let mut k: usize = 0;
    while k < lit.len()
        invariant
            i <= v@.len(),
            k <= lit@.len(),
            lit@.len() <= v@.len() - i,
            s == v@.skip(i as int),
            forall|q: int| 0 <= q < k ==> s[q] == lit@[q],
        decreases lit@.len() - k,
    {
        let n = v.len();
        proof {
            assert(i + k < v@.len());
            assert(v@.len() == n);
        }
        if v[i + k] != lit[k] {
            proof {
                assert(s[k as int] == v@[i + k]);
                assert(s.take(lit@.len() as int)[k as int] != lit@[k as int]);
            }
            return None;
        }
        proof {
            assert(s[k as int] == v@[i + k]);
        }
        k = k + 1;
    }
    proof {
        assert(s.take(lit@.len() as int) =~= lit@);
        assert(s.skip(lit@.len() as int) =~= v@.skip(i + lit@.len()));
    }
    Some(i + lit.len())
}

/// Reads a JSON string body at position `i`, through its closing quote.
fn parse_string(v: &Vec<char>, i: usize) -> (r: Option<(Vec<char>, usize)>)
    requires
        i <= v@.len(),
    ensures
        match r {
            Some((cs, j)) => i <= j <= v@.len() && p_string(v@.skip(i as int)) == Some(
                (cs@, v@.skip(j as int)),
            ),
            None => p_string(v@.skip(i as int)) is None,
        },
    decreases v@.len() - i,
{
    let ghost s = v@.skip(i as int);
    if i == v.len() {
        proof {
            assert(s.len() == 0);
        }
        return None;
    }
    let c = v[i];
    proof {
        assert(s[0] == c);
    }
    if c == '"' {
        let cs: Vec<char> = Vec::new();
        proof {
            assert(s.drop_first() =~= v@.skip(i as int + 1));
            assert(cs@ =~= Seq::<char>::empty());
        }
        Some((cs, i + 1))
    } else if c == '\\' {
        if i + 1 < v.len() {
            let e = v[i + 1];
            proof {
                assert(s[1] == e);
            }
            match unesc_exec(e) {
                Some(u) => {
                    proof {
                        assert(s.skip(2) =~= v@.skip(i as int + 2));
                    }
                    match parse_string(v, i + 2) {
                        Some((cs0, j)) => {
                            let mut cs = cs0;
                            let ghost inner = cs@;
                            cs.insert(0, u);
                            proof {
                                assert(cs@ =~= seq![u] + inner);
                            }
                            Some((cs, j))
                        },
                        None => None,
                    }
                },
                None => None,
            }
        } else {
            proof {
                assert(s.len() < 2);
            }
            None
        }
    } else {
        proof {
            assert(s.drop_first() =~= v@.skip(i as int + 1));
        }
        match parse_string(v, i + 1) {
            Some((cs0, j)) => {
                let mut cs = cs0;
                let ghost inner = cs@;
                cs.insert(0, c);
                proof {
                    assert(cs@ =~= seq![c] + inner);
                }
                Some((cs, j))
            },
            None => None,
        }
    }
}

/// The role a parsed role string names, if any.
fn role_of_exec(rcs: &Vec<char>) -> (r: Option<Role>)
    ensures
        r == role_of(rcs@),
{
    let u = role_vec(Role::User);
    if crate::text::chars_eq(rcs, &u) {
        return Some(Role::User);
    }
    let a = role_vec(Role::Assistant);
    if crate::text::chars_eq(rcs, &a) {
        return Some(Role::Assistant);
    }
    let sv = role_vec(Role::System);
    if crate::text::chars_eq(rcs, &sv) {
        return Some(Role::System);
    }
    None
}

/// Reads one turn object at position `i`.
fn parse_turn(v: &Vec<char>, i: usize) -> (r: Option<(Role, String, usize)>)
    requires
        i <= v@.len(),
    ensures
        match r {
            Some((role, content, j)) => i <= j <= v@.len() && p_turn(v@.skip(i as int)) == Some(
                ((role, content@), v@.skip(j as int)),
            ),
            None => p_turn(v@.skip(i as int)) is None,
        },
{
    let open = turn_open_vec();
    let j1 = match parse_lit(v, i, &open) {
        Some(j) => j,
        None => {
            return None;
        },
    };
    let (rcs, j2) = match parse_string(v, j1) {
        Some(x) => x,
        None => {
            return None;
        },
    };
    let role = match role_of_exec(&rcs) {
        Some(r) => r,
        None => {
            return None;
        },
    };
    let mid = turn_mid_vec();
    let j3 = match parse_lit(v, j2, &mid) {
        Some(j) => j,
        None => {
            return None;
        },
    };
    let (ccs, j4) = match parse_string(v, j3) {
        Some(x) => x,
        None => {
            return None;
        },
    };
    let mut close: Vec<char> = Vec::new();
    close.push('}');
    proof {
        assert(close@ =~= seq!['}']);
    }
    let j5 = match parse_lit(v, j4, &close) {
        Some(j) => j,
        None => {
            return None;
        },
    };
    let content = crate::text::string_from(&ccs, 0);
    proof {
        assert(ccs@.skip(0) =~= ccs@);
    }
    Some((role, content, j5))
}

/// Reads one or more comma-separated turn objects at position `i`.
fn parse_turns(v: &Vec<char>, i: usize) -> (r: Option<(Vec<(Role, String)>, usize)>)
    requires
        i <= v@.len(),
    ensures
        match r {
            Some((ps, j)) => i <= j <= v@.len() && p_turns(v@.skip(i as int)) == Some(
                (pair_views(ps@), v@.skip(j as int)),
            ),
            None => p_turns(v@.skip(i as int)) is None,
        },
    decreases v@.len() - i,
{
    let ghost s = v@.skip(i as int);
    let (role, content, j1) = match parse_turn(v, i) {
        Some(x) => x,
        None => {
            return None;
        },
    };
    if j1 < v.len() && v[j1] == ',' {
        proof {
            assert(v@.skip(j1 as int)[0] == v@[j1 as int]);
            assert(v@.skip(j1 as int).drop_first() =~= v@.skip(j1 as int + 1));
        }
        match parse_turns(v, j1 + 1) {
            Some((ps0, j2)) => {
                let mut ps = ps0;
                let ghost inner = ps@;
                ps.insert(0, (role, content));
                proof {
                    assert(ps@ =~= seq![(ps@[0].0, ps@[0].1)] + inner);
                    assert forall|q: int| 0 <= q < ps@.len() implies pair_views(ps@)[q] == (seq![
                        (ps@[0].0, ps@[0].1@),
                    ] + pair_views(inner))[q] by {
                        if q > 0 {
                            assert(ps@[q] == inner[q - 1]);
                        }
                    }
                    assert(pair_views(ps@) =~= seq![(ps@[0].0, ps@[0].1@)] + pair_views(inner));
                }
                Some((ps, j2))
            },
            None => None,
        }
    } else {
        proof {
            if j1 < v.len() {
                assert(v@.skip(j1 as int)[0] == v@[j1 as int]);
            } else {
                assert(v@.skip(j1 as int).len() == 0);
            }
        }
        let mut ps: Vec<(Role, String)> = Vec::new();
        ps.push((role, content));
        proof {
            assert(pair_views(ps@) =~= seq![(ps@[0].0, ps@[0].1@)]);
        }
        Some((ps, j1))
    }
}

/// Reads a session document. On any malformed input the caller receives an
/// explicit read error; the turns of a well-formed document come back with
/// their display blocks freshly derived.
pub fn parse_session(text: &str) -> (r: Result<Vec<Turn>, ChatError>)
    ensures
        match r {
            Ok(ts) => p_doc(text@) == Some(pairs_of(ts@)) && forall|k: int|
                0 <= k < ts@.len() ==> (#[trigger] ts@[k]).wf(),
            Err(e) => e == ChatError::PersistenceReadFailed && p_doc(text@) is None,
        },
{
    let v = crate::text::chars_of(text);
    if v.len() == 0 {
        return Err(ChatError::PersistenceReadFailed);
    }
    if v[0] != '[' {
        return Err(ChatError::PersistenceReadFailed);
    }
    proof {
        assert(v@.drop_first() =~= v@.skip(1));
    }
    if v.len() == 2 && v[1] == ']' {
        proof {
            assert(v@.skip(1).len() == 1);
            assert(v@.skip(1)[0] == v@[1]);
            assert(pairs_of(Seq::<Turn>::empty()) =~= Seq::<(Role, Seq<char>)>::empty());
        }
        let ts: Vec<Turn> = Vec::new();
        proof {
            assert(pairs_of(ts@) =~= Seq::<(Role, Seq<char>)>::empty());
        }
        return Ok(ts);
    }
    proof {
        if v@.len() >= 2 {
            assert(v@.skip(1)[0] == v@[1]);
        }
        assert(!(v@.skip(1).len() == 1 && v@.skip(1)[0] == ']'));
    }
    match parse_turns(&v, 1) {
        None => Err(ChatError::PersistenceReadFailed),
        Some((ps, j)) => {
            if j == v.len() - 1 && v[j] == ']' {
                proof {
                    assert(v@.skip(j as int).len() == 1);
                    assert(v@.skip(j as int)[0] == v@[j as int]);
                }
                let mut ts: Vec<Turn> = Vec::new();
                let mut k: usize = 0;
                while k < ps.len()
                    invariant
                        k <= ps@.len(),
                        ts@.len() == k,
                        forall|q: int| 0 <= q < k ==> (#[trigger] ts@[q]).wf(),
                        forall|q: int|
                            0 <= q < k ==> (#[trigger] ts@[q].pair()) == pair_views(ps@)[q],
                    decreases ps@.len() - k,
                {
                    let t = Turn::new(ps[k].0, ps[k].1.clone());
                    ts.push(t);
                    k = k + 1;
                }
                proof {
                    assert(pairs_of(ts@) =~= pair_views(ps@));
                }
                Ok(ts)
            } else {
                proof {
                    if j < v@.len() {
                        assert(v@.skip(j as int)[0] == v@[j as int]);
                    }
                    assert(!(v@.skip(j as int).len() == 1 && v@.skip(j as int)[0] == ']'));
                }
                Err(ChatError::PersistenceReadFailed)
            }
        },
    }
}

} // verus!
