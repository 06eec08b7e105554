use crate::cursor::{
    escaped_at, escaped_bytes, le_u16, le_u16_value, lossy_text, lp_string_at, read_byte,
    read_bytes, read_string, read_uint4, u32_at, utf8_lossy, ByteCursor,
};
use crate::error::DecodeError;
use vstd::prelude::*;

verus! {

/// The packet tag of a rules reply (`'E'`).
pub const RULES_REPLY_TAG: u8 = 0x45;

/// One server rule: a name and its value, as text.
#[derive(Debug, Clone)]
pub struct A2SRule {
    pub name: String,
    pub value: String,
}

impl View for A2SRule {
    type V = (Seq<char>, Seq<char>);

    open spec fn view(&self) -> (Seq<char>, Seq<char>) {
        (self.name@, self.value@)
    }
}

/// One add-on known to the server: its id and its name.
#[derive(Debug, Clone)]
pub struct Mod {
    pub id: u32,
    pub name: String,
}

impl View for Mod {
    type V = (u32, Seq<char>);

    open spec fn view(&self) -> (u32, Seq<char>) {
        (self.id, self.name@)
    }
}

/// A decoded rules reply: its tag, the rules in wire order, and the mods of
/// the smuggled record (empty when the packet carries none).
#[derive(Debug, Clone)]
pub struct A2SRulesReply {
    pub header: u8,
    pub rules: Vec<A2SRule>,
    pub mods: Vec<Mod>,
}

pub type RuleView = (Seq<char>, Seq<char>);

pub type ModView = (u32, Seq<char>);

pub type ReplyView = (u8, Seq<RuleView>, Seq<ModView>);

pub open spec fn rules_view(v: Seq<A2SRule>) -> Seq<RuleView> {
    v.map_values(|r: A2SRule| r@)
}

pub open spec fn mods_view(v: Seq<Mod>) -> Seq<ModView> {
    v.map_values(|m: Mod| m@)
}

impl View for A2SRulesReply {
    type V = ReplyView;

    open spec fn view(&self) -> ReplyView {
        (self.header, rules_view(self.rules@), mods_view(self.mods@))
    }
}

/// Index of the first raw `0x00` at or after `p`, if there is one.
pub open spec fn terminator(s: Seq<u8>, p: int) -> Option<int>
    decreases s.len() - p,
{
    if p < 0 || p >= s.len() {
        None
    } else if s[p] == 0 {
        Some(p)
    } else {
        terminator(s, p + 1)
    }
}

/// Whether the rule entry at `p` has the shape of the smuggled record: two
/// nonzero bytes, then a `0x00`.
pub open spec fn sentinel_at(s: Seq<u8>, p: int) -> bool {
    0 <= p && p + 3 <= s.len() && s[p] != 0 && s[p + 1] != 0 && s[p + 2] == 0
}

/// The state of the rule splitter: raw position, rules so far, bytes of the
/// smuggled record so far, and how many sentinel entries were met.
pub type SplitState = (int, Seq<RuleView>, Seq<u8>, nat);

/// One iteration of the rule splitter on the raw packet `s`.
pub open spec fn split_step(s: Seq<u8>, st: SplitState) -> Option<SplitState> {
    let p = st.0;
    if sentinel_at(s, p) {
        match terminator(s, p + 3) {
            Some(e) => Some((e + 1, st.1, st.2 + s.subrange(p + 3, e), st.3 + 1)),
            None => None,
        }
    } else {
        match terminator(s, p) {
            Some(e1) => match terminator(s, e1 + 1) {
                Some(e2) => Some(
                    (
                        e2 + 1,
                        st.1.push((utf8_lossy(s.subrange(p, e1)), utf8_lossy(s.subrange(e1 + 1, e2)))),
                        st.2,
                        st.3,
                    ),
                ),
                None => None,
            },
            None => None,
        }
    }
}

/// The splitter's state after `n` iterations, starting just after the 3-byte header.
pub open spec fn split_n(s: Seq<u8>, n: nat) -> Option<SplitState>
    decreases n,
{
    if n == 0 {
        Some((3, Seq::empty(), Seq::empty(), 0))
    } else {
        match split_n(s, (n - 1) as nat) {
            Some(st) => split_step(s, st),
            None => None,
        }
    }
}

/// The rule-pair count declared by the header (raw little-endian 16 bits).
pub open spec fn rule_count(s: Seq<u8>) -> int {
    le_u16_value(s.subrange(1, 3))
}

/// The splitter's state after all declared iterations.
pub open spec fn split_rules(s: Seq<u8>) -> Option<SplitState> {
    split_n(s, rule_count(s) as nat)
}

/// How many entries of the packet matched the sentinel shape (0 when the
/// rule list itself is cut short).
pub open spec fn sentinel_count(s: Seq<u8>) -> nat {
    match split_rules(s) {
        Some(st) => st.3,
        None => 0,
    }
}

/// The position after the optional kind flag at `p`: consumed only when it is 4.
pub open spec fn after_kind_flag(s: Seq<u8>, p: int) -> int {
    match escaped_at(s, p) {
        Some((b, q)) => if b == 4 {
            q
        } else {
            p
        },
        None => p,
    }
}

/// One mod entry of the smuggled record at `p`.
pub open spec fn mod_entry_at(s: Seq<u8>, p: int) -> Option<(ModView, int)> {
    match u32_at(s, p) {
        Some((_, p1)) => match u32_at(s, after_kind_flag(s, p1)) {
            Some((id, p2)) => match lp_string_at(s, p2) {
                Some((name, p3)) => Some(((id, name), p3)),
                None => None,
            },
            None => None,
        },
        None => None,
    }
}

/// The first `n` mod entries from `p`, with the position after them.
pub open spec fn mods_n(s: Seq<u8>, p: int, n: nat) -> Option<(Seq<ModView>, int)>
    decreases n,
{
    if n == 0 {
        Some((Seq::empty(), p))
    } else {
        match mods_n(s, p, (n - 1) as nat) {
            Some((ms, q)) => match mod_entry_at(s, q) {
                Some((m, q2)) => Some((ms.push(m), q2)),
                None => None,
            },
            None => None,
        }
    }
}

/// Skips a 32-bit integer at `p` when `flag` is nonzero.
pub open spec fn skip_u32_if(s: Seq<u8>, p: int, flag: u8) -> Option<int> {
    if flag != 0 {
        match u32_at(s, p) {
            Some((_, q)) => Some(q),
            None => None,
        }
    } else {
        Some(p)
    }
}

/// The mods of a smuggled record: two reserved bytes, two DLC flags, a
/// 32-bit value for each nonzero flag, a mod count and the mod entries.
pub open spec fn mod_record(s: Seq<u8>) -> Option<Seq<ModView>> {
    match escaped_bytes(s, 0, 4) {
        Some((h, p1)) => match skip_u32_if(s, p1, h[2]) {
            Some(p2) => match skip_u32_if(s, p2, h[3]) {
                Some(p3) => match escaped_at(s, p3) {
                    Some((n, p4)) => match mods_n(s, p4, n as nat) {
                        Some((ms, _)) => Some(ms),
                        None => None,
                    },
                    None => None,
                },
                None => None,
            },
            None => None,
        },
        None => None,
    }
}

/// What decoding the packet `s` gives.
pub open spec fn decode_spec(s: Seq<u8>) -> Result<ReplyView, DecodeError> {
    if s.len() == 0 {
        Err(DecodeError::UnexpectedEndOfInput)
    } else if s[0] != RULES_REPLY_TAG {
        Err(DecodeError::InvalidHeader)
    } else if s.len() < 3 {
        Err(DecodeError::UnexpectedEndOfInput)
    } else {
        match split_rules(s) {
            Some(st) => if st.3 == 0 {
                Ok((RULES_REPLY_TAG, st.1, Seq::empty()))
            } else {
                match mod_record(st.2) {
                    Some(ms) => Ok((RULES_REPLY_TAG, st.1, ms)),
                    None => Err(DecodeError::TruncatedModRecord),
                }
            },
            None => Err(DecodeError::UnexpectedEndOfInput),
        }
    }
}

/// Reads the raw bytes from `p` up to the next `0x00`, and the position after
/// that terminator; `None` when no terminator follows.
pub fn read_cstring(s: &[u8], p: usize) -> (r: Option<(Vec<u8>, usize)>)
    requires
        p <= s@.len(),
    ensures
        match terminator(s@, p as int) {
            Some(e) => r is Some && r->Some_0.0@ == s@.subrange(p as int, e) && r->Some_0.1 == e
                + 1,
            None => r is None,
        },
        r is Some ==> r->Some_0.1 <= s@.len(),
{
    let mut out: Vec<u8> = Vec::new();
    let mut i: usize = p;
    while i < s.len()
        invariant
            p <= i <= s@.len(),
            out@ == s@.subrange(p as int, i as int),
            terminator(s@, p as int) == terminator(s@, i as int),
        decreases s@.len() - i,
    {
        if s[i] == 0 {
            return Some((out, i + 1));
        }
        out.push(s[i]);
        assert(out@ =~= s@.subrange(p as int, i + 1));
        i = i + 1;
    }
    None
}

proof fn lemma_mods_stays_none(s: Seq<u8>, p: int, k: nat, n: nat)
    requires
        k <= n,
        mods_n(s, p, k) is None,
    ensures
        mods_n(s, p, n) is None,
    decreases n,
{
    if k < n {
        lemma_mods_stays_none(s, p, k, (n - 1) as nat);
    }
}

/// Reads one mod entry: a discarded 32-bit field, an optional kind flag of
/// value 4, the 32-bit id and the length-prefixed name.
pub fn read_mod(c: &mut ByteCursor) -> (r: Result<Mod, DecodeError>)
    ensures
        final(c).data@ == old(c).data@,
        match mod_entry_at(old(c).data@, old(c).pos as int) {
            Some((m, q)) => r is Ok && r->Ok_0@ == m && final(c).pos == q,
            None => r == Err::<Mod, DecodeError>(DecodeError::UnexpectedEndOfInput),
        },
{
    if let Err(e) = read_uint4(c) {
        return Err(e);
    }
    let save = c.pos;
    match read_byte(c) {
        Ok(flag) => {
            if flag != 4 {
                c.pos = save;
            }
        },
        Err(_) => {},
    }
    let id = match read_uint4(c) {
        Ok(v) => v,
        Err(e) => return Err(e),
    };
    match read_string(c) {
        Ok(name) => Ok(Mod { id, name }),
        Err(e) => Err(e),
    }
}

/// Decodes a smuggled record (its bytes still escaped) into its mod entries.
/// Any field that the record lacks makes it `TruncatedModRecord`.
pub fn decode_mod_record(payload: Vec<u8>) -> (r: Result<Vec<Mod>, DecodeError>)
    ensures
        match mod_record(payload@) {
            Some(ms) => r is Ok && mods_view(r->Ok_0@) == ms,
            None => r == Err::<Vec<Mod>, DecodeError>(DecodeError::TruncatedModRecord),
        },
{
    let ghost s = payload@;
    let mut c = ByteCursor::new(payload);
    let head = match read_bytes(&mut c, 4) {
        Ok(h) => h,
        Err(_) => return Err(DecodeError::TruncatedModRecord),
    };
    let dlc1 = head[2];
    let dlc2 = head[3];
    if dlc1 != 0 {
        if read_uint4(&mut c).is_err() {
            return Err(DecodeError::TruncatedModRecord);
        }
    }
    if dlc2 != 0 {
        if read_uint4(&mut c).is_err() {
            return Err(DecodeError::TruncatedModRecord);
        }
    }
    let count = match read_byte(&mut c) {
        Ok(n) => n,
        Err(_) => return Err(DecodeError::TruncatedModRecord),
    };
    let ghost p0 = c.pos as int;
    let ghost whole = match mods_n(s, p0, count as nat) {
        Some((ms, _)) => Some(ms),
        None => None,
    };
    assert(mod_record(s) == whole);
    let mut mods: Vec<Mod> = Vec::new();
    let mut k: u8 = 0;
    while k < count
        invariant
            k <= count,
            c.data@ == s,
            s == payload@,
            mod_record(s) == whole,
            whole == match mods_n(s, p0, count as nat) {
                Some((ms, _)) => Some(ms),
                None => None,
            },
            mods_n(s, p0, k as nat) == Some((mods_view(mods@), c.pos as int)),
        decreases count - k,
    {
        match read_mod(&mut c) {
            Ok(m) => {
                let ghost before = mods@;
                let ghost mv = m@;
                mods.push(m);
                assert(mods_view(mods@) =~= mods_view(before).push(mv));
            },
            Err(_) => {
                proof {
                    lemma_mods_stays_none(s, p0, (k + 1) as nat, count as nat);
                }
                return Err(DecodeError::TruncatedModRecord);
            },
        }
        k = k + 1;
    }
    Ok(mods)
}

proof fn lemma_split_stays_none(s: Seq<u8>, k: nat, n: nat)
    requires
        k <= n,
        split_n(s, k) is None,
    ensures
        split_n(s, n) is None,
    decreases n,
{
    if k < n {
        lemma_split_stays_none(s, k, (n - 1) as nat);
    }
}

/// Decodes a rules reply. The rule list is split into ordinary rules and the
/// entries of sentinel shape, whose bytes together form the smuggled record;
/// that record is decoded into mods only when at least one sentinel was met.
/// The result is a complete reply or an error, never a partial reply.
pub fn decode(value: &[u8]) -> (r: Result<A2SRulesReply, DecodeError>)
    ensures
        match decode_spec(value@) {
            Ok(m) => r is Ok && r->Ok_0@ == m,
            Err(e) => r == Err::<A2SRulesReply, DecodeError>(e),
        },
{
    let ghost s = value@;
    if value.len() == 0 {
        return Err(DecodeError::UnexpectedEndOfInput);
    }
    if value[0] != RULES_REPLY_TAG {
        return Err(DecodeError::InvalidHeader);
    }
    if value.len() < 3 {
        return Err(DecodeError::UnexpectedEndOfInput);
    }
    let count_bytes: Vec<u8> = vec![value[1], value[2]];
    let count = le_u16(count_bytes.as_slice());
    let mut pos: usize = 3;
    let mut rules: Vec<A2SRule> = Vec::new();
    let mut payload: Vec<u8> = Vec::new();
    let mut sentinels: u16 = 0;
    let mut i: u16 = 0;
    while i < count
        invariant
            s == value@,
            s.len() >= 3,
            s[0] == RULES_REPLY_TAG,
            count as int == rule_count(s),
            i <= count,
            sentinels <= i,
            pos <= value@.len(),
            split_n(s, i as nat) == Some(
                (pos as int, rules_view(rules@), payload@, sentinels as nat),
            ),
        decreases count - i,
    {
        if value.len() - pos >= 3 && value[pos] != 0 && value[pos + 1] != 0 && value[pos + 2] == 0 {
            match read_cstring(value, pos + 3) {
                Some((chunk, next)) => {
                    let mut chunk = chunk;
                    payload.append(&mut chunk);
                    pos = next;
                    sentinels = sentinels + 1;
                },
                None => {
                    proof {
                        lemma_split_stays_none(s, (i + 1) as nat, count as nat);
                    }
                    return Err(DecodeError::UnexpectedEndOfInput);
                },
            }
        } else {
            let (name, after_name) = match read_cstring(value, pos) {
                Some(x) => x,
                None => {
                    proof {
                        lemma_split_stays_none(s, (i + 1) as nat, count as nat);
                    }
                    return Err(DecodeError::UnexpectedEndOfInput);
                },
            };
            let (text, next) = match read_cstring(value, after_name) {
                Some(x) => x,
                None => {
                    proof {
                        lemma_split_stays_none(s, (i + 1) as nat, count as nat);
                    }
                    return Err(DecodeError::UnexpectedEndOfInput);
                },
            };
            let rule = A2SRule { name: lossy_text(name.as_slice()), value: lossy_text(text.as_slice()) };
            let ghost before = rules@;
            let ghost rv = rule@;
            rules.push(rule);
            assert(rules_view(rules@) =~= rules_view(before).push(rv));
            pos = next;
        }
        i = i + 1;
    }
    if sentinels == 0 {
        return Ok(A2SRulesReply { header: RULES_REPLY_TAG, rules, mods: Vec::new() });
    }
    match decode_mod_record(payload) {
        Ok(mods) => Ok(A2SRulesReply { header: RULES_REPLY_TAG, rules, mods }),
        Err(e) => Err(e),
    }
}

/// Decoding is a function of the bytes alone: the same bytes always decode to
/// the same reply, or to the same error.
pub proof fn lemma_decode_deterministic(a: Seq<u8>, b: Seq<u8>)
    requires
        a == b,
    ensures
        decode_spec(a) == decode_spec(b),
{
}

proof fn lemma_split_counts(s: Seq<u8>, n: nat)
    ensures
        match split_n(s, n) {
            Some(st) => st.1.len() + st.3 == n,
            None => true,
        },
    decreases n,
{
    if n > 0 {
        lemma_split_counts(s, (n - 1) as nat);
    }
}

/// Every declared rule pair is accounted for: the rules of a decoded reply
/// and the entries of sentinel shape add up to the count in the header. With
/// at most one sentinel entry, that is the rules plus one if a sentinel was met.
pub proof fn lemma_rule_count(s: Seq<u8>)
    requires
        decode_spec(s) is Ok,
    ensures
        decode_spec(s)->Ok_0.1.len() + sentinel_count(s) == rule_count(s),
        sentinel_count(s) <= 1 ==> decode_spec(s)->Ok_0.1.len() + (if sentinel_count(s) == 1 {
            1int
        } else {
            0int
        }) == rule_count(s),
{
    lemma_split_counts(s, rule_count(s) as nat);
}

/// A packet with no entry of sentinel shape decodes with no mods, and never
/// fails for a truncated mod record.
pub proof fn lemma_no_sentinel_no_mods(s: Seq<u8>)
    requires
        sentinel_count(s) == 0,
    ensures
        decode_spec(s) != Err::<ReplyView, DecodeError>(DecodeError::TruncatedModRecord),
        decode_spec(s) is Ok ==> decode_spec(s)->Ok_0.2.len() == 0,
{
}

} // verus!
