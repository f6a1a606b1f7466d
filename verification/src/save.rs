//! The plain-text save format for player progress (collection, items, stats,
//! crystals): one `key=value` line per field, the party as comma-separated
//! `Name:level` entries. Writing and reading back are proved to round-trip.

use vstd::prelude::*;
use crate::creatures::{CreatureKind, kind_name, kind_named, lemma_name_round_trip};
use crate::text::{decimal, push_char, push_decimal, find, trim, parse_u32, is_ws, is_digit, lemma_find, lemma_find_some, lemma_find_concat, lemma_trim_clean, lemma_parse_decimal, lemma_decimal, lemma_decimal_plain, find_in, trim_in, parse_u32_in, chars_of, range_is, float_text, float_text_in, lemma_float_text_plain};

verus! {

/// Player progress as stored in a save file. The four vital stats are kept as
/// the decimal text the file holds for them.
#[derive(Debug, PartialEq, Eq)]
pub struct SaveData {
    pub level: u32,
    pub exp: u32,
    pub hp: String,
    pub max_hp: String,
    pub sp: String,
    pub max_sp: String,
    pub crystals: u32,
    pub disc: u32,
    pub bait: u32,
    pub heal: u32,
    pub revive: u32,
    pub flash: u32,
    pub antidote: u32,
    pub party: Vec<(CreatureKind, u32)>,
}

/// The mathematical content of a `SaveData`.
pub struct SaveModel {
    pub level: u32,
    pub exp: u32,
    pub hp: Seq<char>,
    pub max_hp: Seq<char>,
    pub sp: Seq<char>,
    pub max_sp: Seq<char>,
    pub crystals: u32,
    pub disc: u32,
    pub bait: u32,
    pub heal: u32,
    pub revive: u32,
    pub flash: u32,
    pub antidote: u32,
    pub party: Seq<(CreatureKind, u32)>,
}

pub open spec fn model(d: &SaveData) -> SaveModel {
    SaveModel {
        level: d.level,
        exp: d.exp,
        hp: d.hp@,
        max_hp: d.max_hp@,
        sp: d.sp@,
        max_sp: d.max_sp@,
        crystals: d.crystals,
        disc: d.disc,
        bait: d.bait,
        heal: d.heal,
        revive: d.revive,
        flash: d.flash,
        antidote: d.antidote,
        party: d.party@,
    }
}

// ── Writing ──────────────────────────────────────────────────────────────────

/// A `key=value` line without its line break.
pub open spec fn field(key: Seq<char>, value: Seq<char>) -> Seq<char> {
    key + seq!['='] + value
}

/// Each line followed by a line break.
pub open spec fn join_lines(ls: Seq<Seq<char>>) -> Seq<char>
    decreases ls.len(),
{
    if ls.len() == 0 {
        Seq::empty()
    } else {
        join_lines(ls.drop_last()) + ls.last() + seq!['\n']
    }
}

/// One party entry, `Name:level`.
pub open spec fn entry_text(e: (CreatureKind, u32)) -> Seq<char> {
    kind_name(e.0) + seq![':'] + decimal(e.1 as nat)
}

/// The party entries joined by commas.
pub open spec fn party_text(p: Seq<(CreatureKind, u32)>) -> Seq<char>
    decreases p.len(),
{
    if p.len() == 0 {
        Seq::empty()
    } else if p.len() == 1 {
        entry_text(p[0])
    } else {
        party_text(p.drop_last()) + seq![','] + entry_text(p.last())
    }
}

/// The lines of a save, in file order.
pub open spec fn save_lines(m: SaveModel) -> Seq<Seq<char>> {
    seq![
        field("level"@, decimal(m.level as nat)),
        field("exp"@, decimal(m.exp as nat)),
        field("hp"@, m.hp),
        field("maxhp"@, m.max_hp),
        field("sp"@, m.sp),
        field("maxsp"@, m.max_sp),
        field("crystals"@, decimal(m.crystals as nat)),
        field("disc"@, decimal(m.disc as nat)),
        field("bait"@, decimal(m.bait as nat)),
        field("heal"@, decimal(m.heal as nat)),
        field("revive"@, decimal(m.revive as nat)),
        field("flash"@, decimal(m.flash as nat)),
        field("antidote"@, decimal(m.antidote as nat)),
        field("party"@, party_text(m.party)),
    ]
}

/// The full text of a save.
pub open spec fn encode(m: SaveModel) -> Seq<char> {
    join_lines(save_lines(m))
}

proof fn lemma_join_push(ls: Seq<Seq<char>>, x: Seq<char>)
    ensures
        join_lines(ls.push(x)) == join_lines(ls) + x + seq!['\n'],
{
    assert(ls.push(x).drop_last() =~= ls);
}

/// Appends `key=value` and a line break.
fn push_field(out: &mut String, key: &str, value: &str)
    ensures
        final(out)@ == old(out)@ + field(key@, value@) + seq!['\n'],
{
    out.append(key);
    push_char(out, '=');
    out.append(value);
    push_char(out, '\n');
    assert(out@ =~= old(out)@ + field(key@, value@) + seq!['\n']);
}

/// Appends `key=<decimal n>` and a line break.
fn push_number_field(out: &mut String, key: &str, n: u32)
    ensures
        final(out)@ == old(out)@ + field(key@, decimal(n as nat)) + seq!['\n'],
{
    out.append(key);
    push_char(out, '=');
    push_decimal(out, n as u64);
    push_char(out, '\n');
    assert(out@ =~= old(out)@ + field(key@, decimal(n as nat)) + seq!['\n']);
}

/// Appends the party entries joined by commas.
fn push_party(out: &mut String, party: &Vec<(CreatureKind, u32)>)
    ensures
        final(out)@ == old(out)@ + party_text(party@),
{
    let ghost base = out@;
    let mut i: usize = 0;
    assert(party@.take(0) =~= Seq::<(CreatureKind, u32)>::empty());
    assert(out@ =~= base + party_text(party@.take(0)));
    while i < party.len()
        invariant
            i <= party@.len(),
            out@ == base + party_text(party@.take(i as int)),
        decreases party@.len() - i,
    {
        let ghost before = out@;
        if i > 0 {
            push_char(out, ',');
        }
        let (kind, level) = party[i];
        out.append(kind.name());
        push_char(out, ':');
        push_decimal(out, level as u64);
        proof {
            let t = party@.take(i as int + 1);
            assert(t.drop_last() =~= party@.take(i as int));
            assert(t.last() == party@[i as int]);
            if i == 0 {
                assert(t.len() == 1);
                assert(party_text(t) == entry_text(t[0]));
            }
            assert(out@ =~= base + party_text(t));
        }
        i += 1;
    }
    assert(party@.take(party@.len() as int) =~= party@);
}

/// Writes the save text: one `key=value` line per field, in a fixed order, the
/// party last.
pub fn serialize(d: &SaveData) -> (text: String)
    ensures
        text@ == encode(model(d)),
{
    let ghost m = model(d);
    let mut out = String::new();
    let ghost mut done: Seq<Seq<char>> = Seq::empty();
    assert(out@ =~= join_lines(done));
    push_number_field(&mut out, "level", d.level);
    proof { lemma_join_push(done, field("level"@, decimal(m.level as nat))); done = done.push(field("level"@, decimal(m.level as nat))); }
    push_number_field(&mut out, "exp", d.exp);
    proof { lemma_join_push(done, field("exp"@, decimal(m.exp as nat))); done = done.push(field("exp"@, decimal(m.exp as nat))); }
    push_field(&mut out, "hp", d.hp.as_str());
    proof { lemma_join_push(done, field("hp"@, m.hp)); done = done.push(field("hp"@, m.hp)); }
    push_field(&mut out, "maxhp", d.max_hp.as_str());
    proof { lemma_join_push(done, field("maxhp"@, m.max_hp)); done = done.push(field("maxhp"@, m.max_hp)); }
    push_field(&mut out, "sp", d.sp.as_str());
    proof { lemma_join_push(done, field("sp"@, m.sp)); done = done.push(field("sp"@, m.sp)); }
    push_field(&mut out, "maxsp", d.max_sp.as_str());
    proof { lemma_join_push(done, field("maxsp"@, m.max_sp)); done = done.push(field("maxsp"@, m.max_sp)); }
    push_number_field(&mut out, "crystals", d.crystals);
    proof { lemma_join_push(done, field("crystals"@, decimal(m.crystals as nat))); done = done.push(field("crystals"@, decimal(m.crystals as nat))); }
    push_number_field(&mut out, "disc", d.disc);
    proof { lemma_join_push(done, field("disc"@, decimal(m.disc as nat))); done = done.push(field("disc"@, decimal(m.disc as nat))); }
    push_number_field(&mut out, "bait", d.bait);
    proof { lemma_join_push(done, field("bait"@, decimal(m.bait as nat))); done = done.push(field("bait"@, decimal(m.bait as nat))); }
    push_number_field(&mut out, "heal", d.heal);
    proof { lemma_join_push(done, field("heal"@, decimal(m.heal as nat))); done = done.push(field("heal"@, decimal(m.heal as nat))); }
    push_number_field(&mut out, "revive", d.revive);
    proof { lemma_join_push(done, field("revive"@, decimal(m.revive as nat))); done = done.push(field("revive"@, decimal(m.revive as nat))); }
    push_number_field(&mut out, "flash", d.flash);
    proof { lemma_join_push(done, field("flash"@, decimal(m.flash as nat))); done = done.push(field("flash"@, decimal(m.flash as nat))); }
    push_number_field(&mut out, "antidote", d.antidote);
    proof { lemma_join_push(done, field("antidote"@, decimal(m.antidote as nat))); done = done.push(field("antidote"@, decimal(m.antidote as nat))); }
    let ghost before_party = out@;
    out.append("party");
    push_char(&mut out, '=');
    push_party(&mut out, &d.party);
    push_char(&mut out, '\n');
    proof {
        assert(out@ =~= before_party + field("party"@, party_text(m.party)) + seq!['\n']);
        lemma_join_push(done, field("party"@, party_text(m.party)));
        done = done.push(field("party"@, party_text(m.party)));
        assert(done =~= save_lines(m));
    }
    out
}


// ── Reading ──────────────────────────────────────────────────────────────────

/// A line taken off before its `\n` loses a final `\r` (a `\r\n` ending).
pub open spec fn strip_cr(l: Seq<char>) -> Seq<char> {
    if l.len() > 0 && l.last() == '\r' {
        l.drop_last()
    } else {
        l
    }
}

/// The lines of `s` as `str::lines` yields them: split at each `\n`, a `\r`
/// before the `\n` dropped, and no empty line after a final `\n`.
pub open spec fn split_lines(s: Seq<char>) -> Seq<Seq<char>>
    decreases s.len(),
{
    if s.len() == 0 {
        Seq::empty()
    } else if find(s, '\n') is Some && 0 <= find(s, '\n')->0 < s.len() {
        let k = find(s, '\n')->0;
        seq![strip_cr(s.take(k))] + split_lines(s.skip(k + 1))
    } else {
        seq![s]
    }
}

/// The `key=value` pair of a line, both trimmed, split at the first `=`.
pub open spec fn entry_of(line: Seq<char>) -> Option<(Seq<char>, Seq<char>)> {
    if find(line, '=') is Some && 0 <= find(line, '=')->0 < line.len() {
        let k = find(line, '=')->0;
        Some((trim(line.take(k)), trim(line.skip(k + 1))))
    } else {
        None
    }
}

/// The pairs of the lines that hold a `=`, in order.
pub open spec fn entries(ls: Seq<Seq<char>>) -> Seq<(Seq<char>, Seq<char>)>
    decreases ls.len(),
{
    if ls.len() == 0 {
        Seq::empty()
    } else {
        match entry_of(ls.last()) {
            Some(e) => entries(ls.drop_last()).push(e),
            None => entries(ls.drop_last()),
        }
    }
}

/// The value of the last pair with this key: a later line overrides an earlier.
pub open spec fn lookup(es: Seq<(Seq<char>, Seq<char>)>, key: Seq<char>) -> Option<Seq<char>>
    decreases es.len(),
{
    if es.len() == 0 {
        None
    } else if es.last().0 == key {
        Some(es.last().1)
    } else {
        lookup(es.drop_last(), key)
    }
}

/// The number stored under `key`, if present and readable.
pub open spec fn field_u32(es: Seq<(Seq<char>, Seq<char>)>, key: Seq<char>) -> Option<u32> {
    match lookup(es, key) {
        Some(v) => parse_u32(v),
        None => None,
    }
}

/// The text stored under `key`, if present and a number `str::parse::<f32>`
/// reads.
pub open spec fn field_float(es: Seq<(Seq<char>, Seq<char>)>, key: Seq<char>) -> Option<Seq<char>> {
    match lookup(es, key) {
        Some(v) => if float_text(v) {
            Some(v)
        } else {
            None
        },
        None => None,
    }
}

/// `s` split at every `c`, as `str::split` does (always at least one piece).
pub open spec fn split_on(s: Seq<char>, c: char) -> Seq<Seq<char>>
    decreases s.len(),
{
    if find(s, c) is Some && 0 <= find(s, c)->0 < s.len() {
        let k = find(s, c)->0;
        seq![s.take(k)] + split_on(s.skip(k + 1), c)
    } else {
        seq![s]
    }
}

/// A `Name:level` party entry, if both halves read.
pub open spec fn party_entry(e: Seq<char>) -> Option<(CreatureKind, u32)> {
    if find(e, ':') is Some && 0 <= find(e, ':')->0 < e.len() {
        let k = find(e, ':')->0;
        match (kind_named(e.take(k)), parse_u32(e.skip(k + 1))) {
            (Some(kind), Some(level)) => Some((kind, level)),
            _ => None,
        }
    } else {
        None
    }
}

/// The entries that read, in order; empty pieces and unreadable entries are
/// skipped.
pub open spec fn party_of(pieces: Seq<Seq<char>>) -> Seq<(CreatureKind, u32)>
    decreases pieces.len(),
{
    if pieces.len() == 0 {
        Seq::empty()
    } else if pieces.last().len() == 0 {
        party_of(pieces.drop_last())
    } else {
        match party_entry(pieces.last()) {
            Some(e) => party_of(pieces.drop_last()).push(e),
            None => party_of(pieces.drop_last()),
        }
    }
}

/// The party stored under `party`; none when the key is missing.
pub open spec fn parse_party(value: Option<Seq<char>>) -> Seq<(CreatureKind, u32)> {
    match value {
        Some(t) => party_of(split_on(t, ',')),
        None => Seq::empty(),
    }
}

/// What a save text reads as: every numeric field but `antidote` must be
/// present and readable (the four vital stats as floating-point numbers, the
/// rest as `u32`); `antidote` defaults to 0 and a missing `party` to no
/// creatures.
pub open spec fn decode(s: Seq<char>) -> Option<SaveModel> {
    let es = entries(split_lines(s));
    if field_u32(es, "level"@) is Some && field_u32(es, "exp"@) is Some && field_float(es, "hp"@) is Some
        && field_float(es, "maxhp"@) is Some && field_float(es, "sp"@) is Some && field_float(es, "maxsp"@)
        is Some
        && field_u32(es, "crystals"@) is Some && field_u32(es, "disc"@) is Some && field_u32(
        es,
        "bait"@,
    ) is Some && field_u32(es, "heal"@) is Some && field_u32(es, "revive"@) is Some && field_u32(
        es,
        "flash"@,
    ) is Some {
        Some(
            SaveModel {
                level: field_u32(es, "level"@)->0,
                exp: field_u32(es, "exp"@)->0,
                hp: field_float(es, "hp"@)->0,
                max_hp: field_float(es, "maxhp"@)->0,
                sp: field_float(es, "sp"@)->0,
                max_sp: field_float(es, "maxsp"@)->0,
                crystals: field_u32(es, "crystals"@)->0,
                disc: field_u32(es, "disc"@)->0,
                bait: field_u32(es, "bait"@)->0,
                heal: field_u32(es, "heal"@)->0,
                revive: field_u32(es, "revive"@)->0,
                flash: field_u32(es, "flash"@)->0,
                antidote: match field_u32(es, "antidote"@) {
                    Some(a) => a,
                    None => 0,
                },
                party: parse_party(lookup(es, "party"@)),
            },
        )
    } else {
        None
    }
}

/// The pairs that index ranges of `text` stand for.
pub open spec fn pairs_of(text: Seq<char>, es: Seq<(usize, usize, usize, usize)>) -> Seq<
    (Seq<char>, Seq<char>),
> {
    es.map_values(
        |e: (usize, usize, usize, usize)|
            (text.subrange(e.0 as int, e.1 as int), text.subrange(e.2 as int, e.3 as int)),
    )
}

pub open spec fn ranges_ok(len: int, es: Seq<(usize, usize, usize, usize)>) -> bool {
    forall|i: int|
        0 <= i < es.len() ==> (#[trigger] es[i]).0 <= es[i].1 <= len && es[i].2 <= es[i].3 <= len
}

/// The `key=value` pairs of the lines of `text`, as index ranges.
#[verifier::rlimit(40)]
fn read_entries(text: &Vec<char>) -> (es: Vec<(usize, usize, usize, usize)>)
    ensures
        ranges_ok(text@.len() as int, es@),
        pairs_of(text@, es@) == entries(split_lines(text@)),
{
    let n = text.len();
    let mut es: Vec<(usize, usize, usize, usize)> = Vec::new();
    let mut pos: usize = 0;
    let ghost mut done: Seq<Seq<char>> = Seq::empty();
    assert(text@.skip(0) =~= text@);
    assert(pairs_of(text@, es@) =~= entries(done));
    while pos < n
        invariant
            n == text@.len(),
            pos <= n,
            split_lines(text@) == done + split_lines(text@.skip(pos as int)),
            ranges_ok(n as int, es@),
            pairs_of(text@, es@) == entries(done),
        decreases n - pos,
    {
        let ghost t = text@.skip(pos as int);
        assert(text@.subrange(pos as int, n as int) =~= t);
        let found = find_in(text, pos, n, '\n');
        let (end, next) = match found {
            Some(e) => (e, e + 1),
            None => (n, n),
        };
        let mut lend = end;
        if end < n && end > pos && text[end - 1] == '\r' {
            lend = end - 1;
        }
        let ghost line = text@.subrange(pos as int, lend as int);
        proof {
            if found is Some {
                let k = end - pos;
                assert(t.take(k) =~= text@.subrange(pos as int, end as int));
                assert(t.skip(k + 1) =~= text@.skip(next as int));
                if end > pos && text@[end - 1] == '\r' {
                    assert(strip_cr(t.take(k)) =~= line);
                } else {
                    assert(strip_cr(t.take(k)) =~= line);
                }
                assert(split_lines(t) == seq![line] + split_lines(text@.skip(next as int)));
            } else {
                assert(line =~= t);
                assert(split_lines(t) == seq![line]);
                assert(text@.skip(n as int) =~= Seq::<char>::empty());
                assert(split_lines(text@.skip(n as int)) =~= Seq::<Seq<char>>::empty());
                assert(split_lines(t) =~= seq![line] + split_lines(text@.skip(next as int)));
            }
        }
        let eq = find_in(text, pos, lend, '=');
        let ghost es_before = es@;
        match eq {
            Some(q) => {
                let (ka, kb) = trim_in(text, pos, q);
                let (va, vb) = trim_in(text, q + 1, lend);
                es.push((ka, kb, va, vb));
                proof {
                    let k = q - pos;
                    assert(line.take(k) =~= text@.subrange(pos as int, q as int));
                    assert(line.skip(k + 1) =~= text@.subrange(q + 1, lend as int));
                    assert(entry_of(line) == Some((text@.subrange(ka as int, kb as int), text@.subrange(va as int, vb as int))));
                    assert(pairs_of(text@, es@) =~= pairs_of(text@, es_before).push(
                        (text@.subrange(ka as int, kb as int), text@.subrange(va as int, vb as int)),
                    ));
                }
            },
            None => {
                assert(entry_of(line) is None);
            },
        }
        proof {
            let nd = done.push(line);
            assert(nd.drop_last() =~= done);
            assert(nd.last() == line);
            assert(pairs_of(text@, es@) == entries(nd));
            assert(done + split_lines(t) =~= nd + split_lines(text@.skip(next as int)));
            done = nd;
        }
        pos = next;
    }
    assert(text@.skip(n as int) =~= Seq::<char>::empty());
    assert(done + split_lines(text@.skip(n as int)) =~= done);
    es
}

/// The value range of the last pair whose key is `key`.
fn lookup_in(text: &Vec<char>, es: &Vec<(usize, usize, usize, usize)>, key: &str) -> (value: Option<(usize, usize)>)
    requires
        ranges_ok(text@.len() as int, es@),
    ensures
        match value {
            Some((a, b)) => a <= b <= text@.len() && lookup(pairs_of(text@, es@), key@) == Some(
                text@.subrange(a as int, b as int),
            ),
            None => lookup(pairs_of(text@, es@), key@) is None,
        },
{
    let ghost ps = pairs_of(text@, es@);
    let mut i = es.len();
    assert(ps.take(i as int) =~= ps);
    while i > 0
        invariant
            i <= es@.len(),
            ps == pairs_of(text@, es@),
            ranges_ok(text@.len() as int, es@),
            lookup(ps, key@) == lookup(ps.take(i as int), key@),
        decreases i,
    {
        let (ka, kb, va, vb) = es[i - 1];
        assert(ps[i - 1] == (text@.subrange(ka as int, kb as int), text@.subrange(va as int, vb as int)));
        assert(ps.take(i as int).last() == ps[i - 1]);
        assert(ps.take(i as int).drop_last() =~= ps.take(i - 1));
        if range_is(text, ka, kb, key) {
            return Some((va, vb));
        }
        i -= 1;
    }
    None
}

/// The number under `key`.
fn number_in(text: &Vec<char>, es: &Vec<(usize, usize, usize, usize)>, key: &str) -> (n: Option<u32>)
    requires
        ranges_ok(text@.len() as int, es@),
    ensures
        n == field_u32(pairs_of(text@, es@), key@),
{
    match lookup_in(text, es, key) {
        Some((a, b)) => parse_u32_in(text, a, b),
        None => None,
    }
}

/// The characters of `text[lo..hi]` as a `String`.
fn string_of(text: &Vec<char>, lo: usize, hi: usize) -> (s: String)
    requires
        lo <= hi <= text@.len(),
    ensures
        s@ == text@.subrange(lo as int, hi as int),
{
    let mut s = String::new();
    let mut i = lo;
    while i < hi
        invariant
            lo <= i <= hi <= text@.len(),
            s@ == text@.subrange(lo as int, i as int),
        decreases hi - i,
    {
        push_char(&mut s, text[i]);
        assert(s@ =~= text@.subrange(lo as int, i + 1));
        i += 1;
    }
    s
}

/// The text under `key`, if it reads as an `f32`.
fn float_in(text: &Vec<char>, es: &Vec<(usize, usize, usize, usize)>, key: &str) -> (t: Option<String>)
    requires
        ranges_ok(text@.len() as int, es@),
    ensures
        match t {
            Some(t) => field_float(pairs_of(text@, es@), key@) == Some(t@),
            None => field_float(pairs_of(text@, es@), key@) is None,
        },
{
    match lookup_in(text, es, key) {
        Some((a, b)) => if float_text_in(text, a, b) {
            Some(string_of(text, a, b))
        } else {
            None
        },
        None => None,
    }
}

/// The species named exactly by `text[lo..hi]`.
fn kind_in(text: &Vec<char>, lo: usize, hi: usize) -> (kind: Option<CreatureKind>)
    requires
        lo <= hi <= text@.len(),
    ensures
        kind == kind_named(text@.subrange(lo as int, hi as int)),
{
    if range_is(text, lo, hi, CreatureKind::Grasshog.name()) {
        Some(CreatureKind::Grasshog)
    } else if range_is(text, lo, hi, CreatureKind::Aquabud.name()) {
        Some(CreatureKind::Aquabud)
    } else if range_is(text, lo, hi, CreatureKind::Rockfang.name()) {
        Some(CreatureKind::Rockfang)
    } else if range_is(text, lo, hi, CreatureKind::Flarehog.name()) {
        Some(CreatureKind::Flarehog)
    } else {
        None
    }
}

/// The party entry `text[lo..hi]`, if it reads.
fn entry_in(text: &Vec<char>, lo: usize, hi: usize) -> (e: Option<(CreatureKind, u32)>)
    requires
        lo <= hi <= text@.len(),
    ensures
        e == party_entry(text@.subrange(lo as int, hi as int)),
{
    let ghost piece = text@.subrange(lo as int, hi as int);
    match find_in(text, lo, hi, ':') {
        Some(c) => {
            assert(piece.take(c - lo) =~= text@.subrange(lo as int, c as int));
            assert(piece.skip(c - lo + 1) =~= text@.subrange(c + 1, hi as int));
            let kind = kind_in(text, lo, c);
            let level = parse_u32_in(text, c + 1, hi);
            match (kind, level) {
                (Some(k), Some(l)) => Some((k, l)),
                _ => None,
            }
        },
        None => None,
    }
}

/// The party stored in `text[lo..hi]`.
fn party_in(text: &Vec<char>, lo: usize, hi: usize) -> (party: Vec<(CreatureKind, u32)>)
    requires
        lo <= hi <= text@.len(),
    ensures
        party@ == party_of(split_on(text@.subrange(lo as int, hi as int), ',')),
{
    let mut party: Vec<(CreatureKind, u32)> = Vec::new();
    let mut pos = lo;
    let mut finished = false;
    let ghost mut done: Seq<Seq<char>> = Seq::empty();
    assert(split_on(text@.subrange(lo as int, hi as int), ',') =~= done + split_on(
        text@.subrange(pos as int, hi as int),
        ',',
    ));
    while !finished
        invariant
            lo <= pos <= hi <= text@.len(),
            split_on(text@.subrange(lo as int, hi as int), ',') == done + (if finished {
                Seq::<Seq<char>>::empty()
            } else {
                split_on(text@.subrange(pos as int, hi as int), ',')
            }),
            party@ == party_of(done),
        decreases hi - pos + (if finished { 0int } else { 1int }),
    {
        let ghost t = text@.subrange(pos as int, hi as int);
        let (piece_end, found) = match find_in(text, pos, hi, ',') {
            Some(c) => (c, true),
            None => (hi, false),
        };
        let ghost piece = text@.subrange(pos as int, piece_end as int);
        proof {
            if found {
                let k = piece_end - pos;
                assert(t.take(k) =~= piece);
                assert(t.skip(k + 1) =~= text@.subrange(piece_end + 1, hi as int));
            } else {
                assert(piece =~= t);
            }
        }
        let ghost party_before = party@;
        if piece_end > pos {
            match entry_in(text, pos, piece_end) {
                Some(e) => {
                    party.push(e);
                },
                None => {},
            }
        }
        proof {
            let nd = done.push(piece);
            assert(nd.drop_last() =~= done);
            assert(nd.last() == piece);
            assert(party@ == party_of(nd));
            if found {
                assert(done + split_on(t, ',') =~= nd + split_on(
                    text@.subrange(piece_end + 1, hi as int),
                    ',',
                ));
            } else {
                assert(done + split_on(t, ',') =~= nd + Seq::<Seq<char>>::empty());
            }
            done = nd;
        }
        if found {
            pos = piece_end + 1;
        } else {
            finished = true;
        }
    }
    assert(done + Seq::<Seq<char>>::empty() =~= done);
    party
}

/// Reads a save text back. `None` when a required field (all but `antidote`
/// and `party`) is missing or unreadable: the vital stats must read as
/// floating-point numbers, the rest as `u32`.
pub fn deserialize(s: &str) -> (d: Option<SaveData>)
    ensures
        match d {
            Some(d) => decode(s@) == Some(model(&d)),
            None => decode(s@) is None,
        },
{
    let text = chars_of(s);
    let es = read_entries(&text);
    let ghost ps = pairs_of(text@, es@);
    let level = number_in(&text, &es, "level");
    let exp = number_in(&text, &es, "exp");
    let hp = float_in(&text, &es, "hp");
    let max_hp = float_in(&text, &es, "maxhp");
    let sp = float_in(&text, &es, "sp");
    let max_sp = float_in(&text, &es, "maxsp");
    let crystals = number_in(&text, &es, "crystals");
    let disc = number_in(&text, &es, "disc");
    let bait = number_in(&text, &es, "bait");
    let heal = number_in(&text, &es, "heal");
    let revive = number_in(&text, &es, "revive");
    let flash = number_in(&text, &es, "flash");
    let antidote = match number_in(&text, &es, "antidote") {
        Some(a) => a,
        None => 0,
    };
    let party = match lookup_in(&text, &es, "party") {
        Some((a, b)) => party_in(&text, a, b),
        None => Vec::new(),
    };
    match (level, exp, hp, max_hp, sp, max_sp, crystals, disc, bait, heal, revive, flash) {
        (
            Some(level),
            Some(exp),
            Some(hp),
            Some(max_hp),
            Some(sp),
            Some(max_sp),
            Some(crystals),
            Some(disc),
            Some(bait),
            Some(heal),
            Some(revive),
            Some(flash),
        ) => {
            let d = SaveData {
                level,
                exp,
                hp,
                max_hp,
                sp,
                max_sp,
                crystals,
                disc,
                bait,
                heal,
                revive,
                flash,
                antidote,
                party,
            };
            assert(decode(s@) == Some(model(&d)));
            Some(d)
        },
        _ => None,
    }
}


// ── Round trip ───────────────────────────────────────────────────────────────

/// Text that can stand as a field value: on one line, with no whitespace at
/// either end.
pub open spec fn clean_value(t: Seq<char>) -> bool {
    !t.contains('\n') && (t.len() == 0 || (!is_ws(t[0]) && !is_ws(t.last())))
}

/// A field name: non-empty, on one line, without `=` and with no whitespace at
/// either end.
pub open spec fn clean_key(k: Seq<char>) -> bool {
    k.len() > 0 && !k.contains('=') && !k.contains('\n') && !is_ws(k[0]) && !is_ws(k.last())
}

/// A save whose vital-stat texts are numbers, as the text of an `f32` always
/// is.
pub open spec fn savable(m: SaveModel) -> bool {
    float_text(m.hp) && float_text(m.max_hp) && float_text(m.sp) && float_text(m.max_sp)
}

/// A line fit for `join_lines`: no line break inside, and no `\r` at its end
/// that reading would drop.
pub open spec fn one_line(l: Seq<char>) -> bool {
    !l.contains('\n') && (l.len() == 0 || l.last() != '\r')
}

proof fn lemma_join_front(ls: Seq<Seq<char>>)
    requires
        ls.len() > 0,
    ensures
        join_lines(ls) == ls[0] + seq!['\n'] + join_lines(ls.drop_first()),
    decreases ls.len(),
{
    if ls.len() == 1 {
        assert(ls.drop_last() =~= Seq::<Seq<char>>::empty());
        assert(ls.drop_first() =~= Seq::<Seq<char>>::empty());
        assert(join_lines(ls) =~= ls[0] + seq!['\n'] + join_lines(ls.drop_first()));
    } else {
        lemma_join_front(ls.drop_last());
        assert(ls.drop_last()[0] == ls[0]);
        assert(ls.drop_last().drop_first() =~= ls.drop_first().drop_last());
        assert(ls.drop_first().last() == ls.last());
        assert(join_lines(ls) =~= ls[0] + seq!['\n'] + join_lines(ls.drop_first()));
    }
}

/// Lines joined with line breaks split back into the same lines.
proof fn lemma_split_join(ls: Seq<Seq<char>>)
    requires
        forall|i: int| 0 <= i < ls.len() ==> one_line(#[trigger] ls[i]),
    ensures
        split_lines(join_lines(ls)) == ls,
    decreases ls.len(),
{
    if ls.len() == 0 {
        assert(join_lines(ls) =~= Seq::<char>::empty());
        assert(split_lines(join_lines(ls)) =~= ls);
    } else {
        lemma_join_front(ls);
        let l = ls[0];
        let rest = join_lines(ls.drop_first());
        let s = l + seq!['\n'] + rest;
        assert(one_line(l));
        lemma_find_concat(l, seq!['\n'] + rest, '\n');
        lemma_find_some(seq!['\n'] + rest, '\n');
        assert((seq!['\n'] + rest)[0] == '\n');
        lemma_find(seq!['\n'] + rest, '\n', 0);
        assert(s =~= l + (seq!['\n'] + rest));
        assert(find(s, '\n') == Some(l.len() as int));
        assert(s.take(l.len() as int) =~= l);
        assert(s.skip(l.len() as int + 1) =~= rest);
        assert forall|i: int| 0 <= i < ls.drop_first().len() implies one_line(#[trigger] ls.drop_first()[i]) by {
            assert(ls.drop_first()[i] == ls[i + 1]);
        }
        lemma_split_join(ls.drop_first());
        assert(strip_cr(l) == l);
        assert(split_lines(s) =~= ls);
    }
}

/// A clean field line reads back as its key and value, and is one line.
proof fn lemma_field(k: Seq<char>, v: Seq<char>)
    requires
        clean_key(k),
        clean_value(v),
    ensures
        entry_of(field(k, v)) == Some((k, v)),
        one_line(field(k, v)),
{
    let f = field(k, v);
    assert forall|j: int| 0 <= j < k.len() implies f[j] != '=' by {
        assert(f[j] == k[j]);
    }
    assert(f[k.len() as int] == '=');
    lemma_find(f, '=', k.len() as int);
    assert(f.take(k.len() as int) =~= k);
    assert(f.skip(k.len() as int + 1) =~= v);
    lemma_trim_clean(k);
    lemma_trim_clean(v);
    if f.contains('\n') {
        let w = choose|w: int| 0 <= w < f.len() && f[w] == '\n';
        if w < k.len() {
            assert(k[w] == '\n');
        } else if w > k.len() {
            assert(v[w - k.len() - 1] == '\n');
        }
    }
    if v.len() > 0 {
        assert(f.last() == v.last());
    } else {
        assert(f.last() == '=');
    }
}

/// Pairs read from lines that each hold one.
proof fn lemma_entries_all(ls: Seq<Seq<char>>, ps: Seq<(Seq<char>, Seq<char>)>)
    requires
        ls.len() == ps.len(),
        forall|i: int| 0 <= i < ls.len() ==> entry_of(#[trigger] ls[i]) == Some(ps[i]),
    ensures
        entries(ls) == ps,
    decreases ls.len(),
{
    if ls.len() > 0 {
        assert(entry_of(ls[ls.len() - 1]) == Some(ps[ps.len() - 1]));
        assert forall|i: int| 0 <= i < ls.drop_last().len() implies entry_of(#[trigger] ls.drop_last()[i]) == Some(
            ps.drop_last()[i],
        ) by {
            assert(ls.drop_last()[i] == ls[i]);
        }
        lemma_entries_all(ls.drop_last(), ps.drop_last());
        assert(ps.drop_last().push(ps.last()) =~= ps);
    } else {
        assert(ps =~= Seq::<(Seq<char>, Seq<char>)>::empty());
    }
}

/// A key found at `j` and at no later pair looks up its value at `j`.
proof fn lemma_lookup_at(ps: Seq<(Seq<char>, Seq<char>)>, key: Seq<char>, j: int)
    requires
        0 <= j < ps.len(),
        ps[j].0 == key,
        forall|i: int| j < i < ps.len() ==> (#[trigger] ps[i]).0 != key,
    ensures
        lookup(ps, key) == Some(ps[j].1),
    decreases ps.len(),
{
    if j < ps.len() - 1 {
        assert(ps[ps.len() - 1].0 != key);
        assert forall|i: int| j < i < ps.drop_last().len() implies (#[trigger] ps.drop_last()[i]).0 != key by {
            assert(ps.drop_last()[i] == ps[i]);
        }
        lemma_lookup_at(ps.drop_last(), key, j);
    }
}

/// Splitting at a separator that joins two texts splits each of them.
proof fn lemma_split_on_concat(a: Seq<char>, b: Seq<char>, c: char)
    ensures
        split_on(a + seq![c] + b, c) == split_on(a, c) + split_on(b, c),
    decreases a.len(),
{
    let s = a + seq![c] + b;
    assert(s =~= a + (seq![c] + b));
    lemma_find_concat(a, seq![c] + b, c);
    lemma_find_some(a, c);
    assert((seq![c] + b)[0] == c);
    lemma_find(seq![c] + b, c, 0);
    if a.contains(c) {
        let k = find(a, c)->0;
        assert(s.take(k) =~= a.take(k));
        assert(s.skip(k + 1) =~= a.skip(k + 1) + seq![c] + b);
        lemma_split_on_concat(a.skip(k + 1), b, c);
        assert(split_on(s, c) =~= split_on(a, c) + split_on(b, c));
    } else {
        assert(find(s, c) == Some(a.len() as int));
        assert(s.take(a.len() as int) =~= a);
        assert(s.skip(a.len() as int + 1) =~= b);
        lemma_find_some(a, c);
        assert(split_on(a, c) == seq![a]);
        assert(split_on(s, c) =~= split_on(a, c) + split_on(b, c));
    }
}

/// Facts about species names used by the format: non-empty, one word with no
/// separator, starting with a letter.
proof fn lemma_name_plain(k: CreatureKind)
    ensures
        kind_name(k).len() > 0,
        !kind_name(k).contains(','),
        !kind_name(k).contains(':'),
        !kind_name(k).contains('\n'),
        !is_ws(kind_name(k)[0]),
{
    reveal_strlit("Grasshog");
    reveal_strlit("Aquabud");
    reveal_strlit("Rockfang");
    reveal_strlit("Flarehog");
    let n = kind_name(k);
    assert forall|i: int| 0 <= i < n.len() implies n[i] != ',' && n[i] != ':' && n[i] != '\n' by {
        assert(65 <= n[i] as u32 <= 122);
    }
}

/// An entry reads back as itself and holds no comma.
proof fn lemma_entry(e: (CreatureKind, u32))
    ensures
        entry_text(e).len() > 0,
        !entry_text(e).contains(','),
        !entry_text(e).contains('\n'),
        !is_ws(entry_text(e)[0]),
        !is_ws(entry_text(e).last()),
        party_entry(entry_text(e)) == Some(e),
{
    let name = kind_name(e.0);
    let dec = decimal(e.1 as nat);
    let t = entry_text(e);
    lemma_name_plain(e.0);
    lemma_decimal_plain(e.1 as nat, ',');
    lemma_decimal_plain(e.1 as nat, ':');
    lemma_decimal_plain(e.1 as nat, '\n');
    lemma_decimal(e.1 as nat);
    assert forall|j: int| 0 <= j < name.len() implies t[j] != ':' by {
        assert(t[j] == name[j]);
        assert(!name.contains(':'));
    }
    assert(t[name.len() as int] == ':');
    lemma_find(t, ':', name.len() as int);
    assert(t.take(name.len() as int) =~= name);
    assert(t.skip(name.len() as int + 1) =~= dec);
    lemma_name_round_trip(e.0);
    lemma_parse_decimal(e.1);
    assert(t[0] == name[0]);
    assert(t.last() == dec.last());
    assert forall|w: int| 0 <= w < t.len() implies t[w] != ',' && t[w] != '\n' by {
        if w < name.len() {
            assert(t[w] == name[w]);
            assert(!name.contains(','));
            assert(!name.contains('\n'));
        } else if w > name.len() {
            assert(t[w] == dec[w - name.len() - 1]);
            assert(!dec.contains(','));
            assert(!dec.contains('\n'));
        }
    }
}

/// The party text is a clean value, and splitting it at commas gives the
/// entries back.
proof fn lemma_party_text(p: Seq<(CreatureKind, u32)>)
    ensures
        clean_value(party_text(p)),
        p.len() > 0 ==> split_on(party_text(p), ',') == p.map_values(|e: (CreatureKind, u32)| entry_text(e)),
        p.len() > 0 ==> party_text(p)[0] == entry_text(p[0])[0],
        p.len() > 0 ==> party_text(p).len() > 0 && party_text(p).last() == entry_text(p.last()).last(),
    decreases p.len(),
{
    if p.len() == 1 {
        lemma_entry(p[0]);
        lemma_find_some(entry_text(p[0]), ',');
        assert(split_on(entry_text(p[0]), ',') == seq![entry_text(p[0])]);
        assert(p.map_values(|e: (CreatureKind, u32)| entry_text(e)) =~= seq![entry_text(p[0])]);
    } else if p.len() > 1 {
        let q = p.drop_last();
        lemma_party_text(q);
        lemma_entry(p.last());
        let a = party_text(q);
        let b = entry_text(p.last());
        let t = party_text(p);
        assert(t == a + seq![','] + b);
        lemma_split_on_concat(a, b, ',');
        lemma_find_some(b, ',');
        assert(split_on(b, ',') == seq![b]);
        assert(p.map_values(|e: (CreatureKind, u32)| entry_text(e)) =~= q.map_values(
            |e: (CreatureKind, u32)| entry_text(e),
        ).push(b));
        assert(t[0] == a[0]);
        assert(q[0] == p[0]);
        assert(t.last() == b.last());
        if t.contains('\n') {
            let w = choose|w: int| 0 <= w < t.len() && t[w] == '\n';
            if w < a.len() {
                assert(t[w] == a[w]);
            } else if w > a.len() {
                assert(t[w] == b[w - a.len() - 1]);
            }
        }
    }
}

/// Entries that each read, none of them empty, read back as the party.
proof fn lemma_party_of_entries(p: Seq<(CreatureKind, u32)>)
    ensures
        party_of(p.map_values(|e: (CreatureKind, u32)| entry_text(e))) == p,
    decreases p.len(),
{
    let ts = p.map_values(|e: (CreatureKind, u32)| entry_text(e));
    if p.len() > 0 {
        lemma_party_of_entries(p.drop_last());
        assert(ts.drop_last() =~= p.drop_last().map_values(|e: (CreatureKind, u32)| entry_text(e)));
        lemma_entry(p.last());
        assert(ts.last() == entry_text(p.last()));
        assert(p.drop_last().push(p.last()) =~= p);
    } else {
        assert(ts =~= Seq::<Seq<char>>::empty());
    }
}

/// The party written out reads back unchanged.
proof fn lemma_party_round_trip(p: Seq<(CreatureKind, u32)>)
    ensures
        parse_party(Some(party_text(p))) == p,
{
    lemma_party_text(p);
    if p.len() > 0 {
        lemma_party_of_entries(p);
        assert(split_on(party_text(p), ',') == p.map_values(|e: (CreatureKind, u32)| entry_text(e)));
    } else {
        let e = Seq::<char>::empty();
        assert(party_text(p) =~= e);
        lemma_find_some(e, ',');
        assert(split_on(e, ',') == seq![e]);
        let pieces = seq![e];
        assert(pieces.last().len() == 0);
        assert(pieces.drop_last() =~= Seq::<Seq<char>>::empty());
        assert(party_of(pieces) == party_of(pieces.drop_last()));
        assert(party_of(Seq::<Seq<char>>::empty()) =~= Seq::<(CreatureKind, u32)>::empty());
        assert(p =~= Seq::<(CreatureKind, u32)>::empty());
    }
}

/// The field names, in file order.
pub open spec fn keys() -> Seq<Seq<char>> {
    seq![
        "level"@,
        "exp"@,
        "hp"@,
        "maxhp"@,
        "sp"@,
        "maxsp"@,
        "crystals"@,
        "disc"@,
        "bait"@,
        "heal"@,
        "revive"@,
        "flash"@,
        "antidote"@,
        "party"@,
    ]
}

/// The field names are clean and pairwise different.
proof fn lemma_keys()
    ensures
        keys().len() == 14,
        forall|i: int| 0 <= i < 14 ==> clean_key(#[trigger] keys()[i]),
        forall|i: int, j: int| 0 <= i < j < 14 ==> keys()[i] != keys()[j],
{
    reveal_strlit("level");
    reveal_strlit("exp");
    reveal_strlit("hp");
    reveal_strlit("maxhp");
    reveal_strlit("sp");
    reveal_strlit("maxsp");
    reveal_strlit("crystals");
    reveal_strlit("disc");
    reveal_strlit("bait");
    reveal_strlit("heal");
    reveal_strlit("revive");
    reveal_strlit("flash");
    reveal_strlit("antidote");
    reveal_strlit("party");
    let ks = keys();
    assert forall|i: int| 0 <= i < 14 implies clean_key(#[trigger] ks[i]) by {
        let k = ks[i];
        assert forall|w: int| 0 <= w < k.len() implies k[w] != '=' && k[w] != '\n' by {
            assert(97 <= k[w] as u32 <= 122);
        }
    }
    assert forall|i: int, j: int| 0 <= i < j < 14 implies ks[i] != ks[j] by {
        if ks[i].len() == ks[j].len() {
            assert(ks[i][0] != ks[j][0] || ks[i][3] != ks[j][3]);
        }
    }
}

/// Writing a save and reading it back gives the same save, provided its
/// vital-stat texts are numbers `str::parse::<f32>` reads (as the text of an
/// `f32` always is).
pub proof fn lemma_round_trip(m: SaveModel)
    requires
        savable(m),
    ensures
        decode(encode(m)) == Some(m),
{
    lemma_keys();
    let ks = keys();
    let vs = seq![
        decimal(m.level as nat),
        decimal(m.exp as nat),
        m.hp,
        m.max_hp,
        m.sp,
        m.max_sp,
        decimal(m.crystals as nat),
        decimal(m.disc as nat),
        decimal(m.bait as nat),
        decimal(m.heal as nat),
        decimal(m.revive as nat),
        decimal(m.flash as nat),
        decimal(m.antidote as nat),
        party_text(m.party),
    ];
    let ls = save_lines(m);
    assert(ls =~= Seq::new(14, |i: int| field(ks[i], vs[i])));
    lemma_decimal_plain(m.level as nat, '\n');
    lemma_decimal_plain(m.exp as nat, '\n');
    lemma_decimal_plain(m.crystals as nat, '\n');
    lemma_decimal_plain(m.disc as nat, '\n');
    lemma_decimal_plain(m.bait as nat, '\n');
    lemma_decimal_plain(m.heal as nat, '\n');
    lemma_decimal_plain(m.revive as nat, '\n');
    lemma_decimal_plain(m.flash as nat, '\n');
    lemma_decimal_plain(m.antidote as nat, '\n');
    lemma_party_text(m.party);
    lemma_float_text_plain(m.hp);
    lemma_float_text_plain(m.max_hp);
    lemma_float_text_plain(m.sp);
    lemma_float_text_plain(m.max_sp);
    assert forall|i: int| 0 <= i < 14 implies clean_value(#[trigger] vs[i]) by {}
    let ps = Seq::new(14, |i: int| (ks[i], vs[i]));
    assert forall|i: int| 0 <= i < 14 implies entry_of(#[trigger] ls[i]) == Some(ps[i]) && one_line(ls[i]) by {
        lemma_field(ks[i], vs[i]);
    }
    lemma_split_join(ls);
    lemma_entries_all(ls, ps);
    let es = entries(split_lines(encode(m)));
    assert(es == ps);
    assert forall|j: int| 0 <= j < 14 implies lookup(es, #[trigger] ks[j]) == Some(vs[j]) by {
        assert forall|i: int| j < i < ps.len() implies (#[trigger] ps[i]).0 != ks[j] by {}
        lemma_lookup_at(ps, ks[j], j);
    }
    lemma_parse_decimal(m.level);
    lemma_parse_decimal(m.exp);
    lemma_parse_decimal(m.crystals);
    lemma_parse_decimal(m.disc);
    lemma_parse_decimal(m.bait);
    lemma_parse_decimal(m.heal);
    lemma_parse_decimal(m.revive);
    lemma_parse_decimal(m.flash);
    lemma_parse_decimal(m.antidote);
    lemma_party_round_trip(m.party);
}

} // verus!
