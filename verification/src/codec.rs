//! Protocol codec: turns commands and events into one-line JSON text
//! frames and back. The encoding is the compact canonical form with the
//! fields in a fixed order; the decoder accepts exactly that form. String
//! payloads have `"` and `\` escaped with a backslash.

use vstd::prelude::*;
use crate::protocol::{Command, Event, WatchInfo, CmdModel, EventModel, WatchInfoV};

verus! {

// ---------------------------------------------------------------------
// Escaping
// ---------------------------------------------------------------------

/// How one payload character appears inside a JSON string.
pub open spec fn esc_char(c: char) -> Seq<char> {
    if c == '"' || c == '\\' {
        seq!['\\', c]
    } else {
        seq![c]
    }
}

/// A payload character sequence as it appears inside a JSON string.
pub open spec fn esc(s: Seq<char>) -> Seq<char>
    decreases s.len(),
{
    if s.len() == 0 {
        Seq::empty()
    } else {
        esc_char(s[0]) + esc(s.drop_first())
    }
}

/// Escaping distributes over appending one character at the end.
proof fn lemma_esc_snoc(s: Seq<char>, c: char)
    ensures
        esc(s.push(c)) == esc(s) + esc_char(c),
    decreases s.len(),
{
    if s.len() == 0 {
        assert(s.push(c)[0] == c);
        assert(s.push(c).drop_first() =~= Seq::<char>::empty());
        assert(esc(Seq::<char>::empty()) == Seq::<char>::empty());
        assert(s =~= Seq::<char>::empty());
        assert(esc(s.push(c)) =~= esc(s) + esc_char(c));
    } else {
        assert(s.push(c).drop_first() =~= s.drop_first().push(c));
        lemma_esc_snoc(s.drop_first(), c);
        assert(esc(s.push(c)) =~= esc(s) + esc_char(c));
    }
}

// ---------------------------------------------------------------------
// The JSON-string parser (specification level)
// ---------------------------------------------------------------------

/// `p` is a prefix of `v`.
pub open spec fn starts_with(v: Seq<char>, p: Seq<char>) -> bool {
    p.len() <= v.len() && v.take(p.len() as int) == p
}

/// Parses a JSON string body up to and through its closing quote.
/// Returns the unescaped content and the number of characters consumed.
pub open spec fn parse_str(v: Seq<char>) -> Option<(Seq<char>, int)>
    decreases v.len(),
{
    if v.len() == 0 {
        None
    } else if v[0] == '"' {
        Some((Seq::empty(), 1))
    } else if v[0] == '\\' {
        if v.len() >= 2 && (v[1] == '"' || v[1] == '\\') {
            match parse_str(v.skip(2)) {
                Some(t) => Some((seq![v[1]] + t.0, t.1 + 2)),
                None => None,
            }
        } else {
            None
        }
    } else {
        match parse_str(v.skip(1)) {
            Some(t) => Some((seq![v[0]] + t.0, t.1 + 1)),
            None => None,
        }
    }
}

/// Parsing inverts escaping: an escaped payload followed by a closing
/// quote parses back to the payload, whatever follows the quote.
proof fn lemma_parse_esc(s: Seq<char>, rest: Seq<char>)
    ensures
        parse_str(esc(s) + seq!['"'] + rest) == Some((s, (esc(s).len() + 1) as int)),
    decreases s.len(),
{
    let v = esc(s) + seq!['"'] + rest;
    if s.len() == 0 {
        assert(v[0] == '"');
        assert(s =~= Seq::<char>::empty());
    } else {
        let c = s[0];
        let s1 = s.drop_first();
        assert(esc(s) == esc_char(c) + esc(s1));
        if c == '"' || c == '\\' {
            assert(v[0] == '\\');
            assert(v[1] == c);
            assert(v.len() >= 2);
            assert(v.skip(2) =~= esc(s1) + seq!['"'] + rest);
            lemma_parse_esc(s1, rest);
            assert(seq![c] + s1 =~= s);
        } else {
            assert(v[0] == c);
            assert(v.skip(1) =~= esc(s1) + seq!['"'] + rest);
            lemma_parse_esc(s1, rest);
            assert(seq![c] + s1 =~= s);
        }
    }
}

// ---------------------------------------------------------------------
// Frame literals
// ---------------------------------------------------------------------

pub open spec fn quote() -> Seq<char> {
    seq!['"']
}

pub open spec fn rbrace() -> Seq<char> {
    seq!['}']
}

pub open spec fn aw_pre() -> Seq<char> {
    "{\"cmd\":\"ADD_WATCH\",\"path\":\""@
}

pub open spec fn rw_pre() -> Seq<char> {
    "{\"cmd\":\"REMOVE_WATCH\",\"id\":\""@
}

pub open spec fn id_sep() -> Seq<char> {
    ",\"id\":\""@
}

pub open spec fn list_lit() -> Seq<char> {
    "{\"cmd\":\"LIST_WATCHES\"}"@
}

pub open spec fn shut_lit() -> Seq<char> {
    "{\"cmd\":\"SHUTDOWN\"}"@
}

pub open spec fn fa_pre() -> Seq<char> {
    "{\"event\":\"FILE_ADDED\",\"watch_id\":\""@
}

pub open spec fn da_pre() -> Seq<char> {
    "{\"event\":\"DIR_ADDED\",\"watch_id\":\""@
}

pub open spec fn fr_pre() -> Seq<char> {
    "{\"event\":\"FILE_REMOVED\",\"watch_id\":\""@
}

pub open spec fn dr_pre() -> Seq<char> {
    "{\"event\":\"DIR_REMOVED\",\"watch_id\":\""@
}

pub open spec fn ready_pre() -> Seq<char> {
    "{\"event\":\"READY\",\"watch_id\":\""@
}

pub open spec fn wl_pre() -> Seq<char> {
    "{\"event\":\"WATCH_LIST\",\"watches\":["@
}

pub open spec fn err_pre() -> Seq<char> {
    "{\"event\":\"ERROR\",\"message\":\""@
}

pub open spec fn item_pre() -> Seq<char> {
    "{\"id\":\""@
}

pub open spec fn path_sep() -> Seq<char> {
    ",\"path\":\""@
}

pub open spec fn rel_sep() -> Seq<char> {
    ",\"relative\":\""@
}

pub open spec fn wid_sep() -> Seq<char> {
    ",\"watch_id\":\""@
}

// ---------------------------------------------------------------------
// Command encoding and decoding (specification level)
// ---------------------------------------------------------------------

/// The wire text of a command.
pub open spec fn enc_cmd(m: CmdModel) -> Seq<char> {
    match m {
        CmdModel::AddWatch { path, id } => aw_pre() + esc(path) + quote() + id_sep() + esc(id)
            + quote() + rbrace(),
        CmdModel::RemoveWatch { id } => rw_pre() + esc(id) + quote() + rbrace(),
        CmdModel::ListWatches => list_lit(),
        CmdModel::Shutdown => shut_lit(),
    }
}

/// The command a wire text denotes, when it is a canonical frame.
pub open spec fn dec_cmd(v: Seq<char>) -> Option<CmdModel> {
    if starts_with(v, aw_pre()) {
        match parse_str(v.skip(aw_pre().len() as int)) {
            Some(t1) => {
                let w = v.skip(aw_pre().len() + t1.1);
                if starts_with(w, id_sep()) {
                    match parse_str(w.skip(id_sep().len() as int)) {
                        Some(t2) => if w.skip(id_sep().len() + t2.1) == rbrace() {
                            Some(CmdModel::AddWatch { path: t1.0, id: t2.0 })
                        } else {
                            None
                        },
                        None => None,
                    }
                } else {
                    None
                }
            }
            None => None,
        }
    } else if starts_with(v, rw_pre()) {
        match parse_str(v.skip(rw_pre().len() as int)) {
            Some(t1) => if v.skip(rw_pre().len() + t1.1) == rbrace() {
                Some(CmdModel::RemoveWatch { id: t1.0 })
            } else {
                None
            },
            None => None,
        }
    } else if v == list_lit() {
        Some(CmdModel::ListWatches)
    } else if v == shut_lit() {
        Some(CmdModel::Shutdown)
    } else {
        None
    }
}

/// Decoding a command frame gives back the encoded command.
pub proof fn lemma_cmd_round_trip(m: CmdModel)
    ensures
        dec_cmd(enc_cmd(m)) == Some(m),
{
    reveal_strlit("{\"cmd\":\"ADD_WATCH\",\"path\":\"");
    reveal_strlit("{\"cmd\":\"REMOVE_WATCH\",\"id\":\"");
    reveal_strlit(",\"id\":\"");
    reveal_strlit("{\"cmd\":\"LIST_WATCHES\"}");
    reveal_strlit("{\"cmd\":\"SHUTDOWN\"}");
    let v = enc_cmd(m);
    match m {
        CmdModel::AddWatch { path, id } => {
            assert(v.take(aw_pre().len() as int) =~= aw_pre());
            let rest1 = id_sep() + esc(id) + quote() + rbrace();
            assert(v.skip(aw_pre().len() as int) =~= esc(path) + seq!['"'] + rest1);
            lemma_parse_esc(path, rest1);
            let n1 = (esc(path).len() + 1) as int;
            let w = v.skip(aw_pre().len() + n1);
            assert(w =~= id_sep() + esc(id) + quote() + rbrace());
            assert(w.take(id_sep().len() as int) =~= id_sep());
            assert(w.skip(id_sep().len() as int) =~= esc(id) + seq!['"'] + rbrace());
            lemma_parse_esc(id, rbrace());
            let n2 = (esc(id).len() + 1) as int;
            assert(w.skip(id_sep().len() + n2) =~= rbrace());
        }
        CmdModel::RemoveWatch { id } => {
            if starts_with(v, aw_pre()) {
                assert(v.take(aw_pre().len() as int)[8] == aw_pre()[8]);
                assert(v[8] == rw_pre()[8]);
                assert(false);
            }
            assert(v.take(rw_pre().len() as int) =~= rw_pre());
            assert(v.skip(rw_pre().len() as int) =~= esc(id) + seq!['"'] + rbrace());
            lemma_parse_esc(id, rbrace());
            let n1 = (esc(id).len() + 1) as int;
            assert(v.skip(rw_pre().len() + n1) =~= rbrace());
        }
        CmdModel::ListWatches => {
            assert(!starts_with(v, aw_pre()));
            assert(!starts_with(v, rw_pre()));
        }
        CmdModel::Shutdown => {
            assert(!starts_with(v, aw_pre()));
            assert(!starts_with(v, rw_pre()));
            assert(v != list_lit());
        }
    }
}

// ---------------------------------------------------------------------
// Executable building blocks
// ---------------------------------------------------------------------

/// Relies on `String::from_iter` over `char`: collecting characters
/// yields the string of exactly those characters, in order.
#[verifier::external_body]
fn chars_to_string(v: &Vec<char>) -> (s: String)
    ensures
        s@ == v@,
{
    v.iter().collect()
}

/// Appends every character of `lit` to `out`.
fn push_str_chars(out: &mut Vec<char>, lit: &str)
    ensures
        final(out)@ == old(out)@ + lit@,
{
    let n = lit.unicode_len();
    let mut i: usize = 0;
    while i < n
        invariant
            i <= n,
            n == lit@.len(),
            out@ == old(out)@ + lit@.take(i as int),
        decreases n - i,
    {
        out.push(lit.get_char(i));
        proof {
            assert(old(out)@ + lit@.take(i as int) + seq![lit@[i as int]] =~= old(out)@
                + lit@.take(i + 1));
        }
        i += 1;
    }
    proof {
        assert(lit@.take(n as int) =~= lit@);
    }
}

/// Appends the escaped form of `s` to `out`.
fn push_escaped(out: &mut Vec<char>, s: &str)
    ensures
        final(out)@ == old(out)@ + esc(s@),
{
    let n = s.unicode_len();
    let mut i: usize = 0;
    while i < n
        invariant
            i <= n,
            n == s@.len(),
            out@ == old(out)@ + esc(s@.take(i as int)),
        decreases n - i,
    {
        let c = s.get_char(i);
        if c == '"' || c == '\\' {
            out.push('\\');
            out.push(c);
        } else {
            out.push(c);
        }
        proof {
            lemma_esc_snoc(s@.take(i as int), s@[i as int]);
            assert(s@.take(i as int).push(s@[i as int]) =~= s@.take(i + 1));
            assert(old(out)@ + esc(s@.take(i as int)) + esc_char(s@[i as int]) =~= old(out)@
                + esc(s@.take(i + 1)));
        }
        i += 1;
    }
    proof {
        assert(s@.take(n as int) =~= s@);
    }
}

/// True when `lit` occurs in `s` at position `i`.
pub(crate) fn starts_lit(s: &str, i: usize, lit: &str) -> (b: bool)
    requires
        i <= s@.len(),
    ensures
        b == starts_with(s@.skip(i as int), lit@),
{
    let n = s.unicode_len();
    let m = lit.unicode_len();
    if m > n - i {
        return false;
    }
    let mut k: usize = 0;
    while k < m
        invariant
            i + m <= n,
            n == s@.len(),
            m == lit@.len(),
            k <= m,
            forall|j: int| 0 <= j < k ==> s@[i + j] == lit@[j],
        decreases m - k,
    {
        if s.get_char(i + k) != lit.get_char(k) {
            proof {
                let suf = s@.skip(i as int);
                if starts_with(suf, lit@) {
                    assert(suf.take(m as int)[k as int] == lit@[k as int]);
                    assert(suf[k as int] == s@[i + k]);
                }
            }
            return false;
        }
        k += 1;
    }
    proof {
        assert(s@.skip(i as int).take(m as int) =~= lit@);
    }
    true
}

/// Parses a JSON string body of `s` starting at `i`, mirroring
/// `parse_str`; returns the unescaped content and the index one past the
/// closing quote.
fn parse_string(s: &str, i: usize) -> (r: Option<(Vec<char>, usize)>)
    requires
        i <= s@.len(),
    ensures
        match r {
            Some(t) => i < t.1 <= s@.len() && parse_str(s@.skip(i as int)) == Some((
                t.0@,
                t.1 - i as int,
            )),
            None => parse_str(s@.skip(i as int)) is None,
        },
    decreases s@.len() - i,
{
    let n = s.unicode_len();
    let ghost suf = s@.skip(i as int);
    if i == n {
        return None;
    }
    let c = s.get_char(i);
    proof {
        assert(suf[0] == s@[i as int]);
    }
    if c == '"' {
        let t: Vec<char> = Vec::new();
        proof {
            assert(t@ =~= Seq::<char>::empty());
        }
        Some((t, i + 1))
    } else if c == '\\' {
        if i + 1 < n {
            let c2 = s.get_char(i + 1);
            proof {
                assert(suf[1] == s@[i + 1]);
            }
            if c2 == '"' || c2 == '\\' {
                proof {
                    assert(suf.skip(2) =~= s@.skip(i + 2));
                }
                match parse_string(s, i + 2) {
                    Some((mut t, j)) => {
                        let ghost t0 = t@;
                        t.insert(0, c2);
                        proof {
                            assert(t@ =~= seq![suf[1]] + t0);
                        }
                        Some((t, j))
                    }
                    None => None,
                }
            } else {
                None
            }
        } else {
            proof {
                assert(suf.len() == 1);
            }
            None
        }
    } else {
        proof {
            assert(suf.skip(1) =~= s@.skip(i + 1));
        }
        match parse_string(s, i + 1) {
            Some((mut t, j)) => {
                let ghost t0 = t@;
                t.insert(0, c);
                proof {
                    assert(t@ =~= seq![suf[0]] + t0);
                }
                Some((t, j))
            }
            None => None,
        }
    }
}

// ---------------------------------------------------------------------
// Command codec (executable)
// ---------------------------------------------------------------------

/// Encodes a command as one canonical JSON text frame.
pub fn encode_command(c: &Command) -> (r: String)
    ensures
        r@ == enc_cmd(c@),
{
    let mut out: Vec<char> = Vec::new();
    match c {
        Command::AddWatch { path, id } => {
            push_str_chars(&mut out, "{\"cmd\":\"ADD_WATCH\",\"path\":\"");
            push_escaped(&mut out, path.as_str());
            out.push('"');
            push_str_chars(&mut out, ",\"id\":\"");
            push_escaped(&mut out, id.as_str());
            out.push('"');
            out.push('}');
            proof {
                assert(out@ =~= enc_cmd(c@));
            }
        }
        Command::RemoveWatch { id } => {
            push_str_chars(&mut out, "{\"cmd\":\"REMOVE_WATCH\",\"id\":\"");
            push_escaped(&mut out, id.as_str());
            out.push('"');
            out.push('}');
            proof {
                assert(out@ =~= enc_cmd(c@));
            }
        }
        Command::ListWatches => {
            push_str_chars(&mut out, "{\"cmd\":\"LIST_WATCHES\"}");
            proof {
                assert(out@ =~= enc_cmd(c@));
            }
        }
        Command::Shutdown => {
            push_str_chars(&mut out, "{\"cmd\":\"SHUTDOWN\"}");
            proof {
                assert(out@ =~= enc_cmd(c@));
            }
        }
    }
    chars_to_string(&out)
}

/// Decodes one canonical JSON command frame; `None` on anything else.
pub fn decode_command(s: &str) -> (r: Option<Command>)
    ensures
        match r {
            Some(c) => dec_cmd(s@) == Some(c@),
            None => dec_cmd(s@) is None,
        },
{
    let n = s.unicode_len();
    proof {
        assert(s@.skip(0) =~= s@);
    }
    let aw = "{\"cmd\":\"ADD_WATCH\",\"path\":\"";
    let rw = "{\"cmd\":\"REMOVE_WATCH\",\"id\":\"";
    if starts_lit(s, 0, aw) {
        let plen = aw.unicode_len();
        match parse_string(s, plen) {
            Some((pv, j)) => {
                proof {
                    assert(s@.skip(plen as int) =~= s@.skip(aw@.len() as int));
                }
                let sep = ",\"id\":\"";
                if starts_lit(s, j, sep) {
                    let seplen = sep.unicode_len();
                    proof {
                        assert(s@.skip(j as int).skip(seplen as int) =~= s@.skip(
                            j + seplen,
                        ));
                    }
                    match parse_string(s, j + seplen) {
                        Some((iv, k)) => {
                            if k < n && n - k == 1 && s.get_char(k) == '}' {
                                proof {
                                    reveal_strlit("}");
                                    assert(s@.skip(j as int).skip(id_sep().len() + (k - (
                                    j + seplen) as int)) =~= rbrace());
                                }
                                Some(
                                    Command::AddWatch {
                                        path: chars_to_string(&pv),
                                        id: chars_to_string(&iv),
                                    },
                                )
                            } else {
                                proof {
                                    let w2 = s@.skip(j as int).skip(id_sep().len() + (k - (
                                    j + seplen) as int));
                                    assert(w2 =~= s@.skip(k as int));
                                    if w2 == rbrace() {
                                        assert(s@.skip(k as int).len() == 1);
                                        assert(s@.skip(k as int)[0] == s@[k as int]);
                                        assert(false);
                                    }
                                }
                                None
                            }
                        }
                        None => None,
                    }
                } else {
                    None
                }
            }
            None => None,
        }
    } else if starts_lit(s, 0, rw) {
        let plen = rw.unicode_len();
        match parse_string(s, plen) {
            Some((iv, j)) => {
                if j < n && n - j == 1 && s.get_char(j) == '}' {
                    proof {
                        assert(s@.skip(rw@.len() + (j - plen as int)) =~= rbrace());
                    }
                    Some(Command::RemoveWatch { id: chars_to_string(&iv) })
                } else {
                    proof {
                        let w2 = s@.skip(rw@.len() + (j - plen as int));
                        assert(w2 =~= s@.skip(j as int));
                        if w2 == rbrace() {
                            assert(s@.skip(j as int).len() == 1);
                            assert(s@.skip(j as int)[0] == s@[j as int]);
                            assert(false);
                        }
                    }
                    None
                }
            }
            None => None,
        }
    } else if str_eq_lit(s, "{\"cmd\":\"LIST_WATCHES\"}") {
        Some(Command::ListWatches)
    } else if str_eq_lit(s, "{\"cmd\":\"SHUTDOWN\"}") {
        Some(Command::Shutdown)
    } else {
        None
    }
}

/// True when `s` is exactly `lit`.
pub(crate) fn str_eq_lit(s: &str, lit: &str) -> (b: bool)
    ensures
        b == (s@ == lit@),
{
    let n = s.unicode_len();
    let m = lit.unicode_len();
    proof {
        assert(s@.skip(0) =~= s@);
    }
    if n == m && starts_lit(s, 0, lit) {
        proof {
            assert(s@.take(m as int) =~= s@);
        }
        true
    } else {
        proof {
            if s@ == lit@ {
                assert(s@.take(m as int) =~= lit@);
            }
        }
        false
    }
}

// ---------------------------------------------------------------------
// Event encoding and decoding (specification level)
// ---------------------------------------------------------------------

/// The wire text of one watch-list entry.
pub open spec fn enc_item(w: WatchInfoV) -> Seq<char> {
    item_pre() + esc(w.id) + quote() + path_sep() + esc(w.path) + quote() + rbrace()
}

/// The wire text of a watch-list body: entries joined with commas.
pub open spec fn enc_items(ws: Seq<WatchInfoV>) -> Seq<char>
    decreases ws.len(),
{
    if ws.len() == 0 {
        Seq::empty()
    } else if ws.len() == 1 {
        enc_item(ws[0])
    } else {
        enc_item(ws[0]) + seq![','] + enc_items(ws.skip(1))
    }
}

/// Joining distributes over appending one entry at the end.
proof fn lemma_enc_items_snoc(ws: Seq<WatchInfoV>, w: WatchInfoV)
    ensures
        enc_items(ws.push(w)) == if ws.len() == 0 {
            enc_item(w)
        } else {
            enc_items(ws) + seq![','] + enc_items(seq![w])
        },
    decreases ws.len(),
{
    let v = ws.push(w);
    if ws.len() == 0 {
        assert(v[0] == w);
        assert(enc_items(seq![w]) == enc_item(w));
    } else if ws.len() == 1 {
        assert(v.skip(1) =~= seq![w]);
        assert(v[0] == ws[0]);
        assert(enc_items(ws) == enc_item(ws[0]));
    } else {
        assert(v.skip(1) =~= ws.skip(1).push(w));
        lemma_enc_items_snoc(ws.skip(1), w);
        assert(v[0] == ws[0]);
        assert(enc_items(v) =~= enc_items(ws) + seq![','] + enc_items(seq![w]));
    }
}

/// The wire text of an event.
pub open spec fn enc_event(m: EventModel) -> Seq<char> {
    match m {
        EventModel::FileAdded { watch_id, path, relative } => fa_pre() + esc(watch_id) + quote()
            + path_sep() + esc(path) + quote() + rel_sep() + esc(relative) + quote() + rbrace(),
        EventModel::DirAdded { watch_id, path, relative } => da_pre() + esc(watch_id) + quote()
            + path_sep() + esc(path) + quote() + rel_sep() + esc(relative) + quote() + rbrace(),
        EventModel::FileRemoved { watch_id, path, relative } => fr_pre() + esc(watch_id) + quote()
            + path_sep() + esc(path) + quote() + rel_sep() + esc(relative) + quote() + rbrace(),
        EventModel::DirRemoved { watch_id, path, relative } => dr_pre() + esc(watch_id) + quote()
            + path_sep() + esc(path) + quote() + rel_sep() + esc(relative) + quote() + rbrace(),
        EventModel::Ready { watch_id } => ready_pre() + esc(watch_id) + quote() + rbrace(),
        EventModel::WatchList { watches } => wl_pre() + enc_items(watches) + seq![']'] + rbrace(),
        EventModel::Error { message, watch_id } => match watch_id {
            None => err_pre() + esc(message) + quote() + rbrace(),
            Some(w) => err_pre() + esc(message) + quote() + wid_sep() + esc(w) + quote()
                + rbrace(),
        },
    }
}

/// Parses the three string fields of a file or directory event, starting
/// right after the frame's opening literal of length `plen`.
pub open spec fn dec_triple(v: Seq<char>, plen: int) -> Option<(Seq<char>, Seq<char>, Seq<char>)> {
    match parse_str(v.skip(plen)) {
        Some(t1) => {
            let v1 = v.skip(plen + t1.1);
            if starts_with(v1, path_sep()) {
                match parse_str(v1.skip(path_sep().len() as int)) {
                    Some(t2) => {
                        let v2 = v1.skip(path_sep().len() + t2.1);
                        if starts_with(v2, rel_sep()) {
                            match parse_str(v2.skip(rel_sep().len() as int)) {
                                Some(t3) => if v2.skip(rel_sep().len() + t3.1) == rbrace() {
                                    Some((t1.0, t2.0, t3.0))
                                } else {
                                    None
                                },
                                None => None,
                            }
                        } else {
                            None
                        }
                    }
                    None => None,
                }
            } else {
                None
            }
        }
        None => None,
    }
}

/// Parses one watch-list entry; returns it with the count of characters
/// consumed, through the entry's closing brace.
pub open spec fn parse_item(v: Seq<char>) -> Option<(WatchInfoV, int)> {
    if starts_with(v, item_pre()) {
        match parse_str(v.skip(item_pre().len() as int)) {
            Some(t1) => {
                let w = v.skip(item_pre().len() + t1.1);
                if starts_with(w, path_sep()) {
                    match parse_str(w.skip(path_sep().len() as int)) {
                        Some(t2) => {
                            let rest = w.skip(path_sep().len() + t2.1);
                            if rest.len() > 0 && rest[0] == '}' {
                                Some(
                                    (
                                        WatchInfoV { id: t1.0, path: t2.0 },
                                        item_pre().len() + t1.1 + path_sep().len() + t2.1 + 1,
                                    ),
                                )
                            } else {
                                None
                            }
                        }
                        None => None,
                    }
                } else {
                    None
                }
            }
            None => None,
        }
    } else {
        None
    }
}

/// Parses a watch-list body up to and through the closing bracket.
pub open spec fn parse_items(v: Seq<char>) -> Option<(Seq<WatchInfoV>, int)>
    decreases v.len(),
{
    if v.len() == 0 {
        None
    } else if v[0] == ']' {
        Some((Seq::empty(), 1))
    } else {
        match parse_item(v) {
            Some(t) => {
                if 0 < t.1 && t.1 < v.len() {
                    if v[t.1] == ',' {
                        match parse_items(v.skip(t.1 + 1)) {
                            Some(t2) => Some((seq![t.0] + t2.0, t.1 + 1 + t2.1)),
                            None => None,
                        }
                    } else if v[t.1] == ']' {
                        Some((seq![t.0], t.1 + 1))
                    } else {
                        None
                    }
                } else {
                    None
                }
            }
            None => None,
        }
    }
}

/// The event a wire text denotes, when it is a canonical frame.
pub open spec fn dec_event(v: Seq<char>) -> Option<EventModel> {
    if starts_with(v, fa_pre()) {
        match dec_triple(v, fa_pre().len() as int) {
            Some(t) => Some(EventModel::FileAdded { watch_id: t.0, path: t.1, relative: t.2 }),
            None => None,
        }
    } else if starts_with(v, da_pre()) {
        match dec_triple(v, da_pre().len() as int) {
            Some(t) => Some(EventModel::DirAdded { watch_id: t.0, path: t.1, relative: t.2 }),
            None => None,
        }
    } else if starts_with(v, fr_pre()) {
        match dec_triple(v, fr_pre().len() as int) {
            Some(t) => Some(EventModel::FileRemoved { watch_id: t.0, path: t.1, relative: t.2 }),
            None => None,
        }
    } else if starts_with(v, dr_pre()) {
        match dec_triple(v, dr_pre().len() as int) {
            Some(t) => Some(EventModel::DirRemoved { watch_id: t.0, path: t.1, relative: t.2 }),
            None => None,
        }
    } else if starts_with(v, ready_pre()) {
        match parse_str(v.skip(ready_pre().len() as int)) {
            Some(t1) => if v.skip(ready_pre().len() + t1.1) == rbrace() {
                Some(EventModel::Ready { watch_id: t1.0 })
            } else {
                None
            },
            None => None,
        }
    } else if starts_with(v, wl_pre()) {
        match parse_items(v.skip(wl_pre().len() as int)) {
            Some(t1) => if v.skip(wl_pre().len() + t1.1) == rbrace() {
                Some(EventModel::WatchList { watches: t1.0 })
            } else {
                None
            },
            None => None,
        }
    } else if starts_with(v, err_pre()) {
        match parse_str(v.skip(err_pre().len() as int)) {
            Some(t1) => {
                let w = v.skip(err_pre().len() + t1.1);
                if w == rbrace() {
                    Some(EventModel::Error { message: t1.0, watch_id: None })
                } else if starts_with(w, wid_sep()) {
                    match parse_str(w.skip(wid_sep().len() as int)) {
                        Some(t2) => if w.skip(wid_sep().len() + t2.1) == rbrace() {
                            Some(EventModel::Error { message: t1.0, watch_id: Some(t2.0) })
                        } else {
                            None
                        },
                        None => None,
                    }
                } else {
                    None
                }
            }
            None => None,
        }
    } else {
        None
    }
}

// ---------------------------------------------------------------------
// Event codec (executable)
// ---------------------------------------------------------------------

/// Appends one encoded watch-list entry to `out`.
fn push_item(out: &mut Vec<char>, w: &WatchInfo)
    ensures
        final(out)@ == old(out)@ + enc_item(w@),
{
    push_str_chars(out, "{\"id\":\"");
    push_escaped(out, w.id.as_str());
    out.push('"');
    push_str_chars(out, ",\"path\":\"");
    push_escaped(out, w.path.as_str());
    out.push('"');
    out.push('}');
    proof {
        assert(out@ =~= old(out)@ + enc_item(w@));
    }
}

/// Appends the three string fields shared by the file and directory
/// event frames to `out`.
fn push_triple(out: &mut Vec<char>, watch_id: &str, path: &str, relative: &str)
    ensures
        final(out)@ == old(out)@ + esc(watch_id@) + quote() + path_sep() + esc(path@) + quote()
            + rel_sep() + esc(relative@) + quote() + rbrace(),
{
    push_escaped(out, watch_id);
    out.push('"');
    push_str_chars(out, ",\"path\":\"");
    push_escaped(out, path);
    out.push('"');
    push_str_chars(out, ",\"relative\":\"");
    push_escaped(out, relative);
    out.push('"');
    out.push('}');
    proof {
        assert(out@ =~= old(out)@ + esc(watch_id@) + quote() + path_sep() + esc(path@) + quote()
            + rel_sep() + esc(relative@) + quote() + rbrace());
    }
}

/// Encodes an event as one canonical JSON text frame.
pub fn encode_event(e: &Event) -> (r: String)
    ensures
        r@ == enc_event(e@),
{
    let mut out: Vec<char> = Vec::new();
    match e {
        Event::FileAdded { watch_id, path, relative } => {
            push_str_chars(&mut out, "{\"event\":\"FILE_ADDED\",\"watch_id\":\"");
            push_triple(&mut out, watch_id.as_str(), path.as_str(), relative.as_str());
            proof {
                assert(out@ =~= enc_event(e@));
            }
        }
        Event::DirAdded { watch_id, path, relative } => {
            push_str_chars(&mut out, "{\"event\":\"DIR_ADDED\",\"watch_id\":\"");
            push_triple(&mut out, watch_id.as_str(), path.as_str(), relative.as_str());
            proof {
                assert(out@ =~= enc_event(e@));
            }
        }
        Event::FileRemoved { watch_id, path, relative } => {
            push_str_chars(&mut out, "{\"event\":\"FILE_REMOVED\",\"watch_id\":\"");
            push_triple(&mut out, watch_id.as_str(), path.as_str(), relative.as_str());
            proof {
                assert(out@ =~= enc_event(e@));
            }
        }
        Event::DirRemoved { watch_id, path, relative } => {
            push_str_chars(&mut out, "{\"event\":\"DIR_REMOVED\",\"watch_id\":\"");
            push_triple(&mut out, watch_id.as_str(), path.as_str(), relative.as_str());
            proof {
                assert(out@ =~= enc_event(e@));
            }
        }
        Event::Ready { watch_id } => {
            push_str_chars(&mut out, "{\"event\":\"READY\",\"watch_id\":\"");
            push_escaped(&mut out, watch_id.as_str());
            out.push('"');
            out.push('}');
            proof {
                assert(out@ =~= enc_event(e@));
            }
        }
        Event::WatchList { watches } => {
            push_str_chars(&mut out, "{\"event\":\"WATCH_LIST\",\"watches\":[");
            let ghost ws = watches@.map_values(|w: WatchInfo| w@);
            let mut i: usize = 0;
            while i < watches.len()
                invariant
                    i <= watches.len(),
                    ws == watches@.map_values(|w: WatchInfo| w@),
                    out@ == wl_pre() + enc_items(ws.take(i as int)),
                decreases watches.len() - i,
            {
                if i > 0 {
                    out.push(',');
                }
                push_item(&mut out, &watches[i]);
                proof {
                    lemma_enc_items_snoc(ws.take(i as int), ws[i as int]);
                    assert(ws.take(i as int).push(ws[i as int]) =~= ws.take(i + 1));
                    assert(enc_items(seq![ws[i as int]]) == enc_item(ws[i as int]));
                    assert(out@ =~= wl_pre() + enc_items(ws.take(i + 1)));
                }
                i += 1;
            }
            out.push(']');
            out.push('}');
            proof {
                assert(ws.take(watches.len() as int) =~= ws);
                assert(out@ =~= enc_event(e@));
            }
        }
        Event::Error { message, watch_id } => {
            push_str_chars(&mut out, "{\"event\":\"ERROR\",\"message\":\"");
            push_escaped(&mut out, message.as_str());
            out.push('"');
            match watch_id {
                Some(wid) => {
                    push_str_chars(&mut out, ",\"watch_id\":\"");
                    push_escaped(&mut out, wid.as_str());
                    out.push('"');
                    out.push('}');
                }
                None => {
                    out.push('}');
                }
            }
            proof {
                assert(out@ =~= enc_event(e@));
            }
        }
    }
    chars_to_string(&out)
}

/// Parses the three string fields of a file or directory event frame,
/// starting at `i`, mirroring `dec_triple`.
fn parse_triple(s: &str, i: usize) -> (r: Option<(String, String, String)>)
    requires
        i <= s@.len(),
    ensures
        match r {
            Some(t) => dec_triple(s@, i as int) == Some((t.0@, t.1@, t.2@)),
            None => dec_triple(s@, i as int) is None,
        },
{
    let n = s.unicode_len();
    match parse_string(s, i) {
        Some((wv, j1)) => {
            let sep = ",\"path\":\"";
            if starts_lit(s, j1, sep) {
                let seplen = sep.unicode_len();
                proof {
                    assert(s@.skip(i as int + (j1 - i as int)) =~= s@.skip(j1 as int));
                    assert(s@.skip(j1 as int).skip(seplen as int) =~= s@.skip(j1 + seplen));
                }
                match parse_string(s, j1 + seplen) {
                    Some((pv, j2)) => {
                        let sep2 = ",\"relative\":\"";
                        proof {
                            assert(s@.skip(j1 as int).skip(path_sep().len() + (j2 - (j1
                                + seplen) as int)) =~= s@.skip(j2 as int));
                        }
                        if starts_lit(s, j2, sep2) {
                            let sep2len = sep2.unicode_len();
                            proof {
                                assert(s@.skip(j2 as int).skip(sep2len as int) =~= s@.skip(
                                    j2 + sep2len,
                                ));
                            }
                            match parse_string(s, j2 + sep2len) {
                                Some((rv, j3)) => {
                                    proof {
                                        assert(s@.skip(j2 as int).skip(rel_sep().len() + (j3 - (
                                        j2 + sep2len) as int)) =~= s@.skip(j3 as int));
                                    }
                                    if j3 < n && n - j3 == 1 && s.get_char(j3) == '}' {
                                        proof {
                                            assert(s@.skip(j3 as int) =~= rbrace());
                                        }
                                        Some(
                                            (
                                                chars_to_string(&wv),
                                                chars_to_string(&pv),
                                                chars_to_string(&rv),
                                            ),
                                        )
                                    } else {
                                        proof {
                                            if s@.skip(j3 as int) == rbrace() {
                                                assert(s@.skip(j3 as int).len() == 1);
                                                assert(s@.skip(j3 as int)[0] == s@[j3 as int]);
                                                assert(false);
                                            }
                                        }
                                        None
                                    }
                                }
                                None => None,
                            }
                        } else {
                            None
                        }
                    }
                    None => None,
                }
            } else {
                None
            }
        }
        None => None,
    }
}

/// Parses one watch-list entry of `s` starting at `i`, mirroring
/// `parse_item`.
fn parse_item_x(s: &str, i: usize) -> (r: Option<(WatchInfo, usize)>)
    requires
        i <= s@.len(),
    ensures
        match r {
            Some(t) => i < t.1 <= s@.len() && parse_item(s@.skip(i as int)) == Some((
                t.0@,
                t.1 - i as int,
            )),
            None => parse_item(s@.skip(i as int)) is None,
        },
{
    let n = s.unicode_len();
    let pre = "{\"id\":\"";
    if starts_lit(s, i, pre) {
        let plen = pre.unicode_len();
        proof {
            assert(s@.skip(i as int).skip(item_pre().len() as int) =~= s@.skip(i + plen));
        }
        match parse_string(s, i + plen) {
            Some((idv, j1)) => {
                let sep = ",\"path\":\"";
                proof {
                    assert(s@.skip(i as int).skip(item_pre().len() + (j1 - (i
                        + plen) as int)) =~= s@.skip(j1 as int));
                }
                if starts_lit(s, j1, sep) {
                    let seplen = sep.unicode_len();
                    proof {
                        assert(s@.skip(j1 as int).skip(path_sep().len() as int) =~= s@.skip(
                            j1 + seplen,
                        ));
                    }
                    match parse_string(s, j1 + seplen) {
                        Some((pv, j2)) => {
                            proof {
                                assert(s@.skip(j1 as int).skip(path_sep().len() + (j2 - (j1
                                    + seplen) as int)) =~= s@.skip(j2 as int));
                            }
                            if j2 < n && s.get_char(j2) == '}' {
                                proof {
                                    assert(s@.skip(j2 as int)[0] == s@[j2 as int]);
                                }
                                Some(
                                    (
                                        WatchInfo {
                                            id: chars_to_string(&idv),
                                            path: chars_to_string(&pv),
                                        },
                                        j2 + 1,
                                    ),
                                )
                            } else {
                                proof {
                                    let rest = s@.skip(j2 as int);
                                    if rest.len() > 0 && rest[0] == '}' {
                                        assert(rest[0] == s@[j2 as int]);
                                        assert(false);
                                    }
                                }
                                None
                            }
                        }
                        None => None,
                    }
                } else {
                    None
                }
            }
            None => None,
        }
    } else {
        None
    }
}

/// Parses a watch-list body of `s` starting at `i`, mirroring
/// `parse_items`.
fn parse_items_x(s: &str, i: usize) -> (r: Option<(Vec<WatchInfo>, usize)>)
    requires
        i <= s@.len(),
    ensures
        match r {
            Some(t) => i < t.1 <= s@.len() && parse_items(s@.skip(i as int)) == Some((
                t.0@.map_values(|w: WatchInfo| w@),
                t.1 - i as int,
            )),
            None => parse_items(s@.skip(i as int)) is None,
        },
    decreases s@.len() - i,
{
    let n = s.unicode_len();
    let ghost suf = s@.skip(i as int);
    if i == n {
        return None;
    }
    proof {
        assert(suf[0] == s@[i as int]);
    }
    if s.get_char(i) == ']' {
        let items: Vec<WatchInfo> = Vec::new();
        proof {
            assert(items@.map_values(|w: WatchInfo| w@) =~= Seq::<WatchInfoV>::empty());
        }
        return Some((items, i + 1));
    }
    match parse_item_x(s, i) {
        Some((wi, j)) => {
            if j < n {
                let c = s.get_char(j);
                proof {
                    assert(suf[j - i as int] == s@[j as int]);
                }
                if c == ',' {
                    proof {
                        assert(suf.skip(j - i as int + 1) =~= s@.skip(j + 1));
                    }
                    match parse_items_x(s, j + 1) {
                        Some((mut items, m)) => {
                            let ghost items0 = items@;
                            items.insert(0, wi);
                            proof {
                                let f = |w: WatchInfo| w@;
                                assert(items@ =~= seq![wi] + items0);
                                assert forall|k: int| 0 <= k < items@.len() implies
                                    items@.map_values(f)[k] == (seq![wi@]
                                    + items0.map_values(f))[k] by {
                                    if k > 0 {
                                        assert(items@[k] == items0[k - 1]);
                                    }
                                }
                                assert(items@.map_values(f) =~= seq![wi@] + items0.map_values(
                                    f,
                                ));
                            }
                            Some((items, m))
                        }
                        None => None,
                    }
                } else if c == ']' {
                    let mut items: Vec<WatchInfo> = Vec::new();
                    items.push(wi);
                    proof {
                        let f = |w: WatchInfo| w@;
                        assert(items@ =~= seq![wi]);
                        assert(items@.map_values(f) =~= seq![wi@]);
                    }
                    Some((items, j + 1))
                } else {
                    None
                }
            } else {
                None
            }
        }
        None => None,
    }
}

/// Decodes one canonical JSON event frame; `None` on anything else.
#[verifier::rlimit(100)]
pub fn decode_event(s: &str) -> (r: Option<Event>)
    ensures
        match r {
            Some(e) => dec_event(s@) == Some(e@),
            None => dec_event(s@) is None,
        },
{
    let n = s.unicode_len();
    proof {
        assert(s@.skip(0) =~= s@);
    }
    let fa = "{\"event\":\"FILE_ADDED\",\"watch_id\":\"";
    let da = "{\"event\":\"DIR_ADDED\",\"watch_id\":\"";
    let fr = "{\"event\":\"FILE_REMOVED\",\"watch_id\":\"";
    let dr = "{\"event\":\"DIR_REMOVED\",\"watch_id\":\"";
    let rd = "{\"event\":\"READY\",\"watch_id\":\"";
    let wl = "{\"event\":\"WATCH_LIST\",\"watches\":[";
    let er = "{\"event\":\"ERROR\",\"message\":\"";
    if starts_lit(s, 0, fa) {
        match parse_triple(s, fa.unicode_len()) {
            Some((w, p, rl)) => Some(Event::FileAdded { watch_id: w, path: p, relative: rl }),
            None => None,
        }
    } else if starts_lit(s, 0, da) {
        match parse_triple(s, da.unicode_len()) {
            Some((w, p, rl)) => Some(Event::DirAdded { watch_id: w, path: p, relative: rl }),
            None => None,
        }
    } else if starts_lit(s, 0, fr) {
        match parse_triple(s, fr.unicode_len()) {
            Some((w, p, rl)) => Some(Event::FileRemoved { watch_id: w, path: p, relative: rl }),
            None => None,
        }
    } else if starts_lit(s, 0, dr) {
        match parse_triple(s, dr.unicode_len()) {
            Some((w, p, rl)) => Some(Event::DirRemoved { watch_id: w, path: p, relative: rl }),
            None => None,
        }
    } else if starts_lit(s, 0, rd) {
        let plen = rd.unicode_len();
        match parse_string(s, plen) {
            Some((wv, j)) => {
                if j < n && n - j == 1 && s.get_char(j) == '}' {
                    proof {
                        assert(s@.skip(rd@.len() + (j - plen as int)) =~= rbrace());
                    }
                    Some(Event::Ready { watch_id: chars_to_string(&wv) })
                } else {
                    proof {
                        let w2 = s@.skip(rd@.len() + (j - plen as int));
                        assert(w2 =~= s@.skip(j as int));
                        if w2 == rbrace() {
                            assert(s@.skip(j as int)[0] == s@[j as int]);
                            assert(false);
                        }
                    }
                    None
                }
            }
            None => None,
        }
    } else if starts_lit(s, 0, wl) {
        let plen = wl.unicode_len();
        proof {
            assert(s@.skip(0).skip(wl_pre().len() as int) =~= s@.skip(plen as int));
        }
        match parse_items_x(s, plen) {
            Some((items, j)) => {
                if j < n && n - j == 1 && s.get_char(j) == '}' {
                    proof {
                        assert(s@.skip(wl_pre().len() + (j - plen as int)) =~= rbrace());
                    }
                    Some(Event::WatchList { watches: items })
                } else {
                    proof {
                        let w2 = s@.skip(wl_pre().len() + (j - plen as int));
                        assert(w2 =~= s@.skip(j as int));
                        if w2 == rbrace() {
                            assert(w2.len() == 1);
                            assert(s@.skip(j as int).len() == s@.len() - j);
                            assert(s@.skip(j as int)[0] == s@[j as int]);
                            assert(false);
                        }
                    }
                    None
                }
            }
            None => None,
        }
    } else if starts_lit(s, 0, er) {
        let plen = er.unicode_len();
        match parse_string(s, plen) {
            Some((mv, j)) => {
                proof {
                    assert(s@.skip(er@.len() + (j - plen as int)) =~= s@.skip(j as int));
                }
                if j < n && n - j == 1 && s.get_char(j) == '}' {
                    proof {
                        assert(s@.skip(j as int) =~= rbrace());
                    }
                    Some(Event::Error { message: chars_to_string(&mv), watch_id: None })
                } else {
                    proof {
                        let w2 = s@.skip(j as int);
                        if w2 == rbrace() {
                            assert(w2[0] == s@[j as int]);
                            assert(false);
                        }
                    }
                    let sep = ",\"watch_id\":\"";
                    if starts_lit(s, j, sep) {
                        let seplen = sep.unicode_len();
                        proof {
                            assert(s@.skip(j as int).skip(wid_sep().len() as int) =~= s@.skip(
                                j + seplen,
                            ));
                        }
                        match parse_string(s, j + seplen) {
                            Some((wv, k)) => {
                                if k < n && n - k == 1 && s.get_char(k) == '}' {
                                    proof {
                                        assert(s@.skip(j as int).skip(wid_sep().len() + (k - (j
                                            + seplen) as int)) =~= rbrace());
                                    }
                                    Some(
                                        Event::Error {
                                            message: chars_to_string(&mv),
                                            watch_id: Some(chars_to_string(&wv)),
                                        },
                                    )
                                } else {
                                    proof {
                                        let w3 = s@.skip(j as int).skip(wid_sep().len() + (k - (j
                                            + seplen) as int));
                                        assert(w3 =~= s@.skip(k as int));
                                        if w3 == rbrace() {
                                            assert(s@.skip(k as int)[0] == s@[k as int]);
                                            assert(false);
                                        }
                                    }
                                    None
                                }
                            }
                            None => None,
                        }
                    } else {
                        None
                    }
                }
            }
            None => None,
        }
    } else {
        None
    }
}

// ---------------------------------------------------------------------
// Event round trip
// ---------------------------------------------------------------------

/// `v` cannot start with `other` when it starts with `own` and the two
/// literals disagree at index `i`.
proof fn lemma_not_prefix(v: Seq<char>, own: Seq<char>, other: Seq<char>, i: int)
    requires
        v.len() >= own.len(),
        v.take(own.len() as int) == own,
        0 <= i < own.len(),
        i < other.len(),
        own[i] != other[i],
    ensures
        !starts_with(v, other),
{
    if starts_with(v, other) {
        assert(v.take(other.len() as int)[i] == other[i]);
        assert(v.take(own.len() as int)[i] == own[i]);
        assert(false);
    }
}

/// An encoded triple frame parses back to its three fields.
proof fn lemma_triple_round(pre: Seq<char>, w: Seq<char>, p: Seq<char>, r: Seq<char>)
    ensures
        dec_triple(
            pre + esc(w) + quote() + path_sep() + esc(p) + quote() + rel_sep() + esc(r) + quote()
                + rbrace(),
            pre.len() as int,
        ) == Some((w, p, r)),
{
    let v = pre + esc(w) + quote() + path_sep() + esc(p) + quote() + rel_sep() + esc(r) + quote()
        + rbrace();
    let rest1 = path_sep() + esc(p) + quote() + rel_sep() + esc(r) + quote() + rbrace();
    assert(v.skip(pre.len() as int) =~= esc(w) + seq!['"'] + rest1);
    lemma_parse_esc(w, rest1);
    let n1 = (esc(w).len() + 1) as int;
    let v1 = v.skip(pre.len() + n1);
    assert(v1 =~= rest1);
    assert(v1.take(path_sep().len() as int) =~= path_sep());
    let rest2 = rel_sep() + esc(r) + quote() + rbrace();
    assert(v1.skip(path_sep().len() as int) =~= esc(p) + seq!['"'] + rest2);
    lemma_parse_esc(p, rest2);
    let n2 = (esc(p).len() + 1) as int;
    let v2 = v1.skip(path_sep().len() + n2);
    assert(v2 =~= rest2);
    assert(v2.take(rel_sep().len() as int) =~= rel_sep());
    assert(v2.skip(rel_sep().len() as int) =~= esc(r) + seq!['"'] + rbrace());
    lemma_parse_esc(r, rbrace());
    let n3 = (esc(r).len() + 1) as int;
    assert(v2.skip(rel_sep().len() + n3) =~= rbrace());
}

/// An encoded watch-list entry parses back, whatever follows it.
proof fn lemma_item_round(w: WatchInfoV, rest: Seq<char>)
    ensures
        parse_item(enc_item(w) + rest) == Some((w, enc_item(w).len() as int)),
{
    reveal_strlit("{\"id\":\"");
    let v = enc_item(w) + rest;
    assert(v.take(item_pre().len() as int) =~= item_pre());
    let rest1 = path_sep() + esc(w.path) + quote() + rbrace() + rest;
    assert(v.skip(item_pre().len() as int) =~= esc(w.id) + seq!['"'] + rest1);
    lemma_parse_esc(w.id, rest1);
    let n1 = (esc(w.id).len() + 1) as int;
    let v1 = v.skip(item_pre().len() + n1);
    assert(v1 =~= rest1);
    assert(v1.take(path_sep().len() as int) =~= path_sep());
    let rest2 = rbrace() + rest;
    assert(v1.skip(path_sep().len() as int) =~= esc(w.path) + seq!['"'] + rest2);
    lemma_parse_esc(w.path, rest2);
    let n2 = (esc(w.path).len() + 1) as int;
    let v2 = v1.skip(path_sep().len() + n2);
    assert(v2 =~= rest2);
    assert(v2.len() > 0 && v2[0] == '}');
    assert(item_pre().len() + n1 + path_sep().len() + n2 + 1 == enc_item(w).len());
    assert(parse_item(v) == Some((WatchInfoV { id: w.id, path: w.path }, enc_item(
        w,
    ).len() as int)));
    assert(WatchInfoV { id: w.id, path: w.path } == w);
}

/// An encoded watch-list body followed by `]` parses back to its entries.
proof fn lemma_items_round(ws: Seq<WatchInfoV>, rest: Seq<char>)
    ensures
        parse_items(enc_items(ws) + seq![']'] + rest) == Some((
            ws,
            (enc_items(ws).len() + 1) as int,
        )),
    decreases ws.len(),
{
    reveal_strlit("{\"id\":\"");
    let v = enc_items(ws) + seq![']'] + rest;
    if ws.len() == 0 {
        assert(v[0] == ']');
        assert(ws =~= Seq::<WatchInfoV>::empty());
    } else if ws.len() == 1 {
        assert(enc_items(ws) == enc_item(ws[0]));
        assert(v =~= enc_item(ws[0]) + (seq![']'] + rest));
        lemma_item_round(ws[0], seq![']'] + rest);
        assert(v[0] == item_pre()[0]);
        assert(v[0] != ']');
        let n = enc_item(ws[0]).len() as int;
        assert(0 < n && n < v.len());
        assert(v[n] == ']');
        assert(seq![ws[0]] =~= ws);
    } else {
        let tail = ws.skip(1);
        assert(enc_items(ws) == enc_item(ws[0]) + seq![','] + enc_items(tail));
        assert(v =~= enc_item(ws[0]) + (seq![','] + enc_items(tail) + seq![']'] + rest));
        lemma_item_round(ws[0], seq![','] + enc_items(tail) + seq![']'] + rest);
        assert(v[0] == item_pre()[0]);
        assert(v[0] != ']');
        let n = enc_item(ws[0]).len() as int;
        assert(0 < n && n < v.len());
        assert(v[n] == ',');
        assert(v.skip(n + 1) =~= enc_items(tail) + seq![']'] + rest);
        lemma_items_round(tail, rest);
        assert(seq![ws[0]] + tail =~= ws);
    }
}

/// An encoded `Error` event holds the watch-id key and value exactly
/// when the event has a watch id; without one, the frame closes right
/// after the message string.
pub proof fn lemma_error_watch_id_field(message: Seq<char>, watch_id: Option<Seq<char>>)
    ensures
        enc_event(EventModel::Error { message, watch_id }) == match watch_id {
            None => err_pre() + esc(message) + quote() + rbrace(),
            Some(w) => err_pre() + esc(message) + quote() + wid_sep() + esc(w) + quote()
                + rbrace(),
        },
{
}

/// Decoding an event frame gives back the encoded event.
#[verifier::rlimit(100)]
pub proof fn lemma_event_round_trip(m: EventModel)
    ensures
        dec_event(enc_event(m)) == Some(m),
{
    reveal_strlit("{\"event\":\"FILE_ADDED\",\"watch_id\":\"");
    reveal_strlit("{\"event\":\"DIR_ADDED\",\"watch_id\":\"");
    reveal_strlit("{\"event\":\"FILE_REMOVED\",\"watch_id\":\"");
    reveal_strlit("{\"event\":\"DIR_REMOVED\",\"watch_id\":\"");
    reveal_strlit("{\"event\":\"READY\",\"watch_id\":\"");
    reveal_strlit("{\"event\":\"WATCH_LIST\",\"watches\":[");
    reveal_strlit("{\"event\":\"ERROR\",\"message\":\"");
    reveal_strlit(",\"watch_id\":\"");
    let v = enc_event(m);
    match m {
        EventModel::FileAdded { watch_id, path, relative } => {
            assert(v.take(fa_pre().len() as int) =~= fa_pre());
            lemma_triple_round(fa_pre(), watch_id, path, relative);
        }
        EventModel::DirAdded { watch_id, path, relative } => {
            assert(v.take(da_pre().len() as int) =~= da_pre());
            lemma_not_prefix(v, da_pre(), fa_pre(), 10);
            lemma_triple_round(da_pre(), watch_id, path, relative);
        }
        EventModel::FileRemoved { watch_id, path, relative } => {
            assert(v.take(fr_pre().len() as int) =~= fr_pre());
            lemma_not_prefix(v, fr_pre(), fa_pre(), 15);
            lemma_not_prefix(v, fr_pre(), da_pre(), 10);
            lemma_triple_round(fr_pre(), watch_id, path, relative);
        }
        EventModel::DirRemoved { watch_id, path, relative } => {
            assert(v.take(dr_pre().len() as int) =~= dr_pre());
            lemma_not_prefix(v, dr_pre(), fa_pre(), 10);
            lemma_not_prefix(v, dr_pre(), da_pre(), 14);
            lemma_not_prefix(v, dr_pre(), fr_pre(), 10);
            lemma_triple_round(dr_pre(), watch_id, path, relative);
        }
        EventModel::Ready { watch_id } => {
            assert(v.take(ready_pre().len() as int) =~= ready_pre());
            lemma_not_prefix(v, ready_pre(), fa_pre(), 10);
            lemma_not_prefix(v, ready_pre(), da_pre(), 10);
            lemma_not_prefix(v, ready_pre(), fr_pre(), 10);
            lemma_not_prefix(v, ready_pre(), dr_pre(), 10);
            assert(v.skip(ready_pre().len() as int) =~= esc(watch_id) + seq!['"'] + rbrace());
            lemma_parse_esc(watch_id, rbrace());
            let n1 = (esc(watch_id).len() + 1) as int;
            assert(v.skip(ready_pre().len() + n1) =~= rbrace());
        }
        EventModel::WatchList { watches } => {
            assert(v.take(wl_pre().len() as int) =~= wl_pre());
            lemma_not_prefix(v, wl_pre(), fa_pre(), 10);
            lemma_not_prefix(v, wl_pre(), da_pre(), 10);
            lemma_not_prefix(v, wl_pre(), fr_pre(), 10);
            lemma_not_prefix(v, wl_pre(), dr_pre(), 10);
            lemma_not_prefix(v, wl_pre(), ready_pre(), 10);
            assert(v.skip(wl_pre().len() as int) =~= enc_items(watches) + seq![']'] + rbrace());
            lemma_items_round(watches, rbrace());
            let n1 = (enc_items(watches).len() + 1) as int;
            assert(v.skip(wl_pre().len() + n1) =~= rbrace());
        }
        EventModel::Error { message, watch_id } => {
            assert(v.take(err_pre().len() as int) =~= err_pre());
            lemma_not_prefix(v, err_pre(), fa_pre(), 10);
            lemma_not_prefix(v, err_pre(), da_pre(), 10);
            lemma_not_prefix(v, err_pre(), fr_pre(), 10);
            lemma_not_prefix(v, err_pre(), dr_pre(), 10);
            lemma_not_prefix(v, err_pre(), ready_pre(), 10);
            lemma_not_prefix(v, err_pre(), wl_pre(), 10);
            match watch_id {
                None => {
                    assert(v.skip(err_pre().len() as int) =~= esc(message) + seq!['"']
                        + rbrace());
                    lemma_parse_esc(message, rbrace());
                    let n1 = (esc(message).len() + 1) as int;
                    assert(v.skip(err_pre().len() + n1) =~= rbrace());
                }
                Some(wid) => {
                    let rest1 = wid_sep() + esc(wid) + quote() + rbrace();
                    assert(v.skip(err_pre().len() as int) =~= esc(message) + seq!['"'] + rest1);
                    lemma_parse_esc(message, rest1);
                    let n1 = (esc(message).len() + 1) as int;
                    let w = v.skip(err_pre().len() + n1);
                    assert(w =~= rest1);
                    assert(w.len() != 1);
                    assert(w != rbrace());
                    assert(w.take(wid_sep().len() as int) =~= wid_sep());
                    assert(w.skip(wid_sep().len() as int) =~= esc(wid) + seq!['"'] + rbrace());
                    lemma_parse_esc(wid, rbrace());
                    let n2 = (esc(wid).len() + 1) as int;
                    assert(w.skip(wid_sep().len() + n2) =~= rbrace());
                }
            }
        }
    }
}

} // verus!
