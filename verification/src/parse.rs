//! The output parser: turns the manager's tabular unit listing and its
//! `Key=Value` property dumps into unit values.  Parsing is tolerant:
//! malformed rows are dropped and missing properties fall back to defaults;
//! no input is an error.

use vstd::prelude::*;
use crate::status::{ServiceStatus, spec_status_of};
use crate::text::{
    find_char,
    lemma_find_char,
    spec_join_space,
    spec_lines,
    spec_trim,
    spec_words,
    split_lines,
    split_words,
    starts_with,
    starts_with_str,
    str_eq,
    strs_view,
    join_space_from,
    trim_str,
};
use crate::unit::{ServiceInfo, UnitView, units_view};

verus! {

/// A unit name with every trailing `.service` suffix removed.
pub open spec fn spec_strip_unit_suffix(s: Seq<char>) -> Seq<char>
    decreases s.len(),
{
    if s.len() >= 8 && s.skip(s.len() - 8) == ".service"@ {
        spec_strip_unit_suffix(s.take(s.len() - 8))
    } else {
        s
    }
}

/// Removes every trailing `.service` suffix from a unit name.
pub fn strip_unit_suffix(s: &str) -> (r: String)
    ensures
        r@ == spec_strip_unit_suffix(s@),
{
    let mut e = s.unicode_len();
    proof {
        reveal_strlit(".service");
        assert(s@.take(e as int) =~= s@);
    }
    loop
        invariant_except_break
            e <= s@.len(),
            spec_strip_unit_suffix(s@) == spec_strip_unit_suffix(s@.take(e as int)),
        ensures
            e <= s@.len(),
            spec_strip_unit_suffix(s@) == s@.take(e as int),
        decreases e,
    {
        if e < 8 {
            proof {
                assert(spec_strip_unit_suffix(s@.take(e as int)) == s@.take(e as int));
            }
            break ;
        }
        let hit = s.get_char(e - 8) == '.' && s.get_char(e - 7) == 's' && s.get_char(e - 6) == 'e'
            && s.get_char(e - 5) == 'r' && s.get_char(e - 4) == 'v' && s.get_char(e - 3) == 'i'
            && s.get_char(e - 2) == 'c' && s.get_char(e - 1) == 'e';
        proof {
            reveal_strlit(".service");
            let t = s@.take(e as int);
            if hit {
                assert(t.skip(e as int - 8) =~= ".service"@);
                assert(t.take(e as int - 8) =~= s@.take(e as int - 8));
            } else {
                if t.skip(e as int - 8) == ".service"@ {
                    assert(t.skip(e as int - 8)[0] == s@[e as int - 8]);
                    assert(t.skip(e as int - 8)[1] == s@[e as int - 7]);
                    assert(t.skip(e as int - 8)[2] == s@[e as int - 6]);
                    assert(t.skip(e as int - 8)[3] == s@[e as int - 5]);
                    assert(t.skip(e as int - 8)[4] == s@[e as int - 4]);
                    assert(t.skip(e as int - 8)[5] == s@[e as int - 3]);
                    assert(t.skip(e as int - 8)[6] == s@[e as int - 2]);
                    assert(t.skip(e as int - 8)[7] == s@[e as int - 1]);
                    assert(false);
                }
                assert(spec_strip_unit_suffix(t) == t);
            }
        }
        if hit {
            e = e - 8;
        } else {
            break ;
        }
    }
    s.substring_char(0, e).to_owned()
}

/// Whether some line of the listing is the `UNIT` column-header row.
pub open spec fn has_unit_header(lines: Seq<Seq<char>>) -> bool {
    exists|i: int| 0 <= i < lines.len() && starts_with(lines[i], "UNIT"@)
}

/// The candidate region of a listing: everything after the first header
/// row that begins with `UNIT`, or the whole text when no such row exists.
pub open spec fn spec_after_header(lines: Seq<Seq<char>>) -> Seq<Seq<char>>
    decreases lines.len(),
{
    if lines.len() == 0 {
        lines
    } else if starts_with(lines[0], "UNIT"@) {
        lines.drop_first()
    } else if has_unit_header(lines.drop_first()) {
        spec_after_header(lines.drop_first())
    } else {
        lines
    }
}

/// The candidate region starts right after the first header row.
pub proof fn lemma_after_header_at(lines: Seq<Seq<char>>, h: int)
    requires
        0 <= h < lines.len(),
        starts_with(lines[h], "UNIT"@),
        forall|j: int| 0 <= j < h ==> !starts_with(lines[j], "UNIT"@),
    ensures
        spec_after_header(lines) == lines.skip(h + 1),
    decreases h,
{
    if h == 0 {
        assert(lines.drop_first() =~= lines.skip(1));
    } else {
        assert(!starts_with(lines[0], "UNIT"@));
        let rest = lines.drop_first();
        assert(rest[h - 1] == lines[h]);
        assert(has_unit_header(rest));
        assert(forall|j: int| 0 <= j < h - 1 ==> rest[j] == lines[j + 1]);
        lemma_after_header_at(rest, h - 1);
        assert(rest.skip(h) =~= lines.skip(h + 1));
    }
}

/// Without a header row, the whole text is the candidate region.
pub proof fn lemma_after_header_none(lines: Seq<Seq<char>>)
    requires
        forall|j: int| 0 <= j < lines.len() ==> !starts_with(lines[j], "UNIT"@),
    ensures
        spec_after_header(lines) == lines,
{
    if lines.len() > 0 {
        let rest = lines.drop_first();
        assert forall|i: int| 0 <= i < rest.len() implies !starts_with(rest[i], "UNIT"@) by {
            assert(rest[i] == lines[i + 1]);
        }
        assert(!has_unit_header(rest));
    }
}

/// Whether a line ends the candidate region: blank, or the start of the
/// `LOAD` legend that follows the rows.
pub open spec fn is_listing_terminator(line: Seq<char>) -> bool {
    spec_trim(line).len() == 0 || starts_with(line, "LOAD"@)
}

/// The candidate rows: every line before the first terminator.
pub open spec fn spec_listing_rows(lines: Seq<Seq<char>>) -> Seq<Seq<char>>
    decreases lines.len(),
{
    if lines.len() == 0 {
        Seq::empty()
    } else if is_listing_terminator(lines[0]) {
        Seq::empty()
    } else {
        seq![lines[0]] + spec_listing_rows(lines.drop_first())
    }
}

/// The unit a single listing row denotes, or nothing for a row with fewer
/// than four whitespace-delimited fields.
pub open spec fn spec_parse_row(line: Seq<char>) -> Option<UnitView> {
    let ws = spec_words(line);
    if ws.len() < 4 {
        None
    } else {
        Some(
            UnitView {
                name: spec_strip_unit_suffix(ws[0]),
                status: spec_status_of(ws[2]),
                description: if ws.len() > 4 {
                    Some(spec_join_space(ws.skip(4)))
                } else {
                    None
                },
                enabled: false,
                active: spec_status_of(ws[2]) is Active,
                load_state: ws[1],
                sub_state: ws[3],
            },
        )
    }
}

/// The units of the candidate rows, in order, rows that parse to nothing
/// dropped.
pub open spec fn spec_parse_rows(lines: Seq<Seq<char>>) -> Seq<UnitView>
    decreases lines.len(),
{
    if lines.len() == 0 {
        Seq::empty()
    } else {
        match spec_parse_row(lines[0]) {
            Some(u) => seq![u] + spec_parse_rows(lines.drop_first()),
            None => spec_parse_rows(lines.drop_first()),
        }
    }
}

/// What a unit-listing text denotes: the parsed units of the candidate
/// rows between the `UNIT` header and the first blank or `LOAD` line.
pub open spec fn spec_parse_listing(text: Seq<char>) -> Seq<UnitView> {
    spec_parse_rows(spec_listing_rows(spec_after_header(spec_lines(text))))
}

/// Every unit a listing denotes has its activity flag agreeing with its
/// status: rows are only ever built that way.
pub proof fn lemma_parse_rows_wf(lines: Seq<Seq<char>>)
    ensures
        forall|k: int|
            0 <= k < spec_parse_rows(lines).len() ==> (#[trigger] spec_parse_rows(lines)[k]).wf(),
    decreases lines.len(),
{
    if lines.len() > 0 {
        lemma_parse_rows_wf(lines.drop_first());
        let rest = spec_parse_rows(lines.drop_first());
        match spec_parse_row(lines[0]) {
            Some(u) => {
                assert(u.wf());
                assert forall|k: int| 0 <= k < spec_parse_rows(lines).len() implies (
                #[trigger] spec_parse_rows(lines)[k]).wf() by {
                    if k == 0 {
                        assert(spec_parse_rows(lines)[0] == u);
                    } else {
                        assert(spec_parse_rows(lines)[k] == rest[k - 1]);
                    }
                }
            },
            None => {
            },
        }
    }
}

/// Every unit of a parsed listing is well formed: one unit per valid row,
/// in the input's order, each with `active` equal to `status is Active`.
pub proof fn lemma_listing_wf(text: Seq<char>)
    ensures
        forall|k: int|
            0 <= k < spec_parse_listing(text).len() ==> (#[trigger] spec_parse_listing(
                text,
            )[k]).wf(),
{
    lemma_parse_rows_wf(spec_listing_rows(spec_after_header(spec_lines(text))));
}

/// A short row is silently dropped: removing a candidate row with fewer
/// than four fields leaves the parse of all the others exactly as it was,
/// so one malformed row never spoils the listing.
pub proof fn lemma_short_row_dropped(lines: Seq<Seq<char>>, k: int)
    requires
        0 <= k < lines.len(),
        spec_words(lines[k]).len() < 4,
    ensures
        spec_parse_rows(lines) == spec_parse_rows(lines.remove(k)),
    decreases lines.len(),
{
    if k == 0 {
        assert(spec_parse_row(lines[0]) is None);
        assert(lines.remove(0) =~= lines.drop_first());
    } else {
        assert(lines.drop_first()[k - 1] == lines[k]);
        lemma_short_row_dropped(lines.drop_first(), k - 1);
        assert(lines.remove(k)[0] == lines[0]);
        assert(lines.remove(k).drop_first() =~= lines.drop_first().remove(k - 1));
    }
}

/// A stripped unit name never ends with the `.service` suffix.
pub proof fn lemma_stripped_name_has_no_suffix(s: Seq<char>)
    ensures
        ({
            let r = spec_strip_unit_suffix(s);
            !(r.len() >= 8 && r.skip(r.len() - 8) == ".service"@)
        }),
    decreases s.len(),
{
    if s.len() >= 8 && s.skip(s.len() - 8) == ".service"@ {
        lemma_stripped_name_has_no_suffix(s.take(s.len() - 8));
    }
}

/// Parses one listing row; rows with fewer than four fields give nothing.
pub fn parse_listing_row(line: &str) -> (r: Option<ServiceInfo>)
    ensures
        (match r {
            Some(u) => Some(u@),
            None => None,
        }) == spec_parse_row(line@),
{
    let ws = split_words(line);
    proof {
        assert(strs_view(ws@).len() == ws@.len());
    }
    if ws.len() < 4 {
        return None;
    }
    let name = strip_unit_suffix(ws[0].as_str());
    let load_state = ws[1].clone();
    let status = ServiceStatus::from(ws[2].as_str());
    let sub_state = ws[3].clone();
    let description = if ws.len() > 4 {
        Some(join_space_from(&ws, 4))
    } else {
        None
    };
    let active = status == ServiceStatus::Active;
    proof {
        let sw = spec_words(line@);
        assert(ws@[0]@ == sw[0]);
        assert(ws@[1]@ == sw[1]);
        assert(ws@[2]@ == sw[2]);
        assert(ws@[3]@ == sw[3]);
        if ws@.len() > 4 {
            assert(strs_view(ws@).skip(4) == sw.skip(4));
        }
    }
    Some(
        ServiceInfo {
            name,
            status,
            description,
            enabled: false,
            active,
            load_state,
            sub_state,
        },
    )
}

/// Parses the tabular output of the manager's unit-listing command.  Rows
/// before the `UNIT` header, after the first blank line or `LOAD` legend,
/// or with fewer than four fields are dropped; every other row gives one
/// unit, in the input's order.
pub fn parse_unit_listing(text: &str) -> (r: Vec<ServiceInfo>)
    ensures
        units_view(r@) == spec_parse_listing(text@),
        forall|k: int| 0 <= k < r@.len() ==> (#[trigger] r@[k]@).wf(),
{
    let lines = split_lines(text);
    let nl = lines.len();
    let ghost ls = strs_view(lines@);
    let mut start: usize = 0;
    let mut h: usize = 0;
    loop
        invariant_except_break
            nl == lines@.len(),
            ls == strs_view(lines@),
            ls == spec_lines(text@),
            h <= nl,
            start == 0,
            forall|j: int| 0 <= j < h ==> !starts_with(#[trigger] ls[j], "UNIT"@),
        ensures
            nl == lines@.len(),
            ls == strs_view(lines@),
            ls == spec_lines(text@),
            start <= nl,
            spec_after_header(ls) == ls.skip(start as int),
        decreases nl - h,
    {
        if h == nl {
            proof {
                lemma_after_header_none(ls);
                assert(ls.skip(0) =~= ls);
            }
            break ;
        }
        if starts_with_str(lines[h].as_str(), "UNIT") {
            proof {
                assert(ls[h as int] == lines@[h as int]@);
                lemma_after_header_at(ls, h as int);
            }
            start = h + 1;
            break ;
        }
        proof {
            assert(ls[h as int] == lines@[h as int]@);
        }
        h = h + 1;
    }
    let mut r: Vec<ServiceInfo> = Vec::new();
    let mut i = start;
    proof {
        assert(units_view(r@) + spec_parse_rows(spec_listing_rows(ls.skip(i as int)))
            =~= spec_parse_listing(text@));
    }
    loop
        invariant_except_break
            nl == lines@.len(),
            ls == strs_view(lines@),
            i <= nl,
            spec_parse_listing(text@) == units_view(r@) + spec_parse_rows(
                spec_listing_rows(ls.skip(i as int)),
            ),
            forall|k: int| 0 <= k < r@.len() ==> (#[trigger] r@[k]@).wf(),
        ensures
            units_view(r@) == spec_parse_listing(text@),
            forall|k: int| 0 <= k < r@.len() ==> (#[trigger] r@[k]@).wf(),
        decreases nl - i,
    {
        if i == nl {
            proof {
                assert(ls.skip(i as int) =~= Seq::<Seq<char>>::empty());
                assert(units_view(r@) + spec_parse_rows(spec_listing_rows(ls.skip(i as int)))
                    =~= units_view(r@));
            }
            break ;
        }
        proof {
            assert(ls[i as int] == lines@[i as int]@);
            assert(ls.skip(i as int)[0] == ls[i as int]);
        }
        let trimmed = trim_str(lines[i].as_str());
        if trimmed.as_str().is_empty() || starts_with_str(lines[i].as_str(), "LOAD") {
            proof {
                assert(is_listing_terminator(ls.skip(i as int)[0]));
                assert(spec_parse_rows(spec_listing_rows(ls.skip(i as int)))
                    =~= Seq::<UnitView>::empty());
                assert(units_view(r@) + Seq::<UnitView>::empty() =~= units_view(r@));
            }
            break ;
        }
        let parsed = parse_listing_row(lines[i].as_str());
        proof {
            let tail = ls.skip(i as int);
            assert(!is_listing_terminator(tail[0]));
            assert(tail.drop_first() =~= ls.skip(i as int + 1));
            let rows = spec_listing_rows(tail);
            assert(rows == seq![tail[0]] + spec_listing_rows(tail.drop_first()));
            assert(rows[0] == tail[0]);
            assert(rows.drop_first() =~= spec_listing_rows(tail.drop_first()));
        }
        match parsed {
            Some(u) => {
                let ghost old_r = r@;
                proof {
                    assert(u@.wf());
                }
                r.push(u);
                proof {
                    assert(units_view(r@) =~= units_view(old_r).push(u@));
                    assert(units_view(old_r) + spec_parse_rows(
                        spec_listing_rows(ls.skip(i as int)),
                    ) =~= units_view(r@) + spec_parse_rows(
                        spec_listing_rows(ls.skip(i as int + 1)),
                    ));
                }
            },
            None => {
                proof {
                    assert(units_view(r@) + spec_parse_rows(spec_listing_rows(ls.skip(i as int)))
                        =~= units_view(r@) + spec_parse_rows(
                        spec_listing_rows(ls.skip(i as int + 1)),
                    ));
                }
            },
        }
        i = i + 1;
    }
    r
}

/// The key/value pair a property line denotes: split at the first `=`,
/// both sides trimmed; a line without `=` denotes nothing.
pub open spec fn spec_kv(line: Seq<char>) -> Option<(Seq<char>, Seq<char>)> {
    let i = find_char(line, '=');
    if 0 <= i < line.len() {
        Some((spec_trim(line.take(i)), spec_trim(line.skip(i + 1))))
    } else {
        None
    }
}

/// The key/value pairs of a property dump, in line order.
pub open spec fn spec_kv_pairs(lines: Seq<Seq<char>>) -> Seq<(Seq<char>, Seq<char>)>
    decreases lines.len(),
{
    if lines.len() == 0 {
        Seq::empty()
    } else {
        match spec_kv(lines[0]) {
            Some(p) => seq![p] + spec_kv_pairs(lines.drop_first()),
            None => spec_kv_pairs(lines.drop_first()),
        }
    }
}

/// The value bound to `key`, the last occurrence winning.
pub open spec fn spec_lookup(pairs: Seq<(Seq<char>, Seq<char>)>, key: Seq<char>) -> Option<
    Seq<char>,
>
    decreases pairs.len(),
{
    if pairs.len() == 0 {
        None
    } else if pairs.last().0 == key {
        Some(pairs.last().1)
    } else {
        spec_lookup(pairs.drop_last(), key)
    }
}

/// The value of property `key` in a property dump, if any.
pub open spec fn spec_prop(text: Seq<char>, key: Seq<char>) -> Option<Seq<char>> {
    spec_lookup(spec_kv_pairs(spec_lines(text)), key)
}

/// The value of property `key`, defaulted to the literal `unknown`.
pub open spec fn spec_prop_or_unknown(text: Seq<char>, key: Seq<char>) -> Seq<char> {
    match spec_prop(text, key) {
        Some(v) => v,
        None => "unknown"@,
    }
}

/// What a property dump denotes for the unit called `name`: status from
/// `ActiveState`, enablement iff `UnitFileState` is exactly `enabled`,
/// defaults for whatever is missing.
pub open spec fn spec_parse_properties(name: Seq<char>, text: Seq<char>) -> UnitView {
    UnitView {
        name: name,
        status: spec_status_of(spec_prop_or_unknown(text, "ActiveState"@)),
        description: spec_prop(text, "Description"@),
        enabled: spec_prop_or_unknown(text, "UnitFileState"@) == "enabled"@,
        active: spec_status_of(spec_prop_or_unknown(text, "ActiveState"@)) is Active,
        load_state: spec_prop_or_unknown(text, "LoadState"@),
        sub_state: spec_prop_or_unknown(text, "SubState"@),
    }
}

/// The sequence of views of a vector of key/value pairs.
pub open spec fn pairs_view(v: Seq<(String, String)>) -> Seq<(Seq<char>, Seq<char>)> {
    v.map_values(|p: (String, String)| (p.0@, p.1@))
}

/// Index of the first occurrence of `c`, if there is one.
fn find_char_str(s: &str, c: char) -> (r: Option<usize>)
    ensures
        (match r {
            Some(k) => k as int == find_char(s@, c) && k < s@.len(),
            None => find_char(s@, c) < 0,
        }),
{
    let n = s.unicode_len();
    let mut k: usize = 0;
    while k < n
        invariant
            n == s@.len(),
            k <= n,
            forall|j: int| 0 <= j < k ==> s@[j] != c,
        decreases n - k,
    {
        if s.get_char(k) == c {
            proof {
                lemma_find_char(s@, c);
            }
            return Some(k);
        }
        k = k + 1;
    }
    proof {
        lemma_find_char(s@, c);
        if find_char(s@, c) >= 0 {
            assert(s@[find_char(s@, c)] == c);
            assert(false);
        }
    }
    None
}

/// Parses a property dump into its key/value pairs, in line order.
pub fn parse_kv_pairs(text: &str) -> (r: Vec<(String, String)>)
    ensures
        pairs_view(r@) == spec_kv_pairs(spec_lines(text@)),
{
    let lines = split_lines(text);
    let nl = lines.len();
    let ghost ls = strs_view(lines@);
    let mut r: Vec<(String, String)> = Vec::new();
    let mut i: usize = 0;
    proof {
        assert(ls.skip(0) =~= ls);
        assert(pairs_view(r@) + spec_kv_pairs(ls) =~= spec_kv_pairs(ls));
    }
    while i < nl
        invariant
            nl == lines@.len(),
            ls == strs_view(lines@),
            ls == spec_lines(text@),
            i <= nl,
            spec_kv_pairs(ls) == pairs_view(r@) + spec_kv_pairs(ls.skip(i as int)),
        decreases nl - i,
    {
        proof {
            assert(ls[i as int] == lines@[i as int]@);
            assert(ls.skip(i as int)[0] == ls[i as int]);
            assert(ls.skip(i as int).drop_first() =~= ls.skip(i as int + 1));
        }
        let line = lines[i].as_str();
        let n = line.unicode_len();
        match find_char_str(line, '=') {
            Some(e) => {
                let key = trim_str(line.substring_char(0, e));
                let value = trim_str(line.substring_char(e + 1, n));
                proof {
                    lemma_find_char(line@, '=');
                    assert(line@.subrange(0, e as int) =~= line@.take(e as int));
                    assert(line@.subrange(e as int + 1, n as int) =~= line@.skip(e as int + 1));
                }
                let ghost old_r = r@;
                r.push((key, value));
                proof {
                    assert(pairs_view(r@) =~= pairs_view(old_r).push((key@, value@)));
                    assert(pairs_view(old_r) + spec_kv_pairs(ls.skip(i as int)) =~= pairs_view(r@)
                        + spec_kv_pairs(ls.skip(i as int + 1)));
                }
            },
            None => {
                proof {
                    assert(spec_kv(ls.skip(i as int)[0]) is None);
                    assert(pairs_view(r@) + spec_kv_pairs(ls.skip(i as int)) =~= pairs_view(r@)
                        + spec_kv_pairs(ls.skip(i as int + 1)));
                }
            },
        }
        i = i + 1;
    }
    proof {
        assert(ls.skip(nl as int) =~= Seq::<Seq<char>>::empty());
        assert(pairs_view(r@) + spec_kv_pairs(ls.skip(nl as int)) =~= pairs_view(r@));
    }
    r
}

/// Looks a key up among parsed pairs, the last occurrence winning.
pub fn lookup_prop(pairs: &Vec<(String, String)>, key: &str) -> (r: Option<String>)
    ensures
        (match r {
            Some(v) => Some(v@),
            None => None,
        }) == spec_lookup(pairs_view(pairs@), key@),
{
    let ghost pv = pairs_view(pairs@);
    let mut i = pairs.len();
    proof {
        assert(pv.take(pairs@.len() as int) =~= pv);
    }
    loop
        invariant
            pv == pairs_view(pairs@),
            i <= pairs@.len(),
            spec_lookup(pv, key@) == spec_lookup(pv.take(i as int), key@),
        decreases i,
    {
        if i == 0 {
            proof {
                assert(pv.take(0) =~= Seq::<(Seq<char>, Seq<char>)>::empty());
            }
            return None;
        }
        proof {
            assert(pv.take(i as int).last() == pv[i as int - 1]);
            assert(pv[i as int - 1] == (pairs@[i as int - 1].0@, pairs@[i as int - 1].1@));
            assert(pv.take(i as int).drop_last() =~= pv.take(i as int - 1));
        }
        if str_eq(pairs[i - 1].0.as_str(), key) {
            return Some(pairs[i - 1].1.clone());
        }
        i = i - 1;
    }
}

/// Parses the `Key=Value` property dump of a single unit.  Total: missing
/// or malformed properties fall back to `unknown`, an absent description
/// stays absent, and an unrecognized `ActiveState` gives `Unknown`.
pub fn parse_unit_properties(name: &str, text: &str) -> (r: ServiceInfo)
    ensures
        r@ == spec_parse_properties(name@, text@),
        r@.wf(),
{
    let pairs = parse_kv_pairs(text);
    let active_state = match lookup_prop(&pairs, "ActiveState") {
        Some(v) => v,
        None => String::from_str("unknown"),
    };
    let sub_state = match lookup_prop(&pairs, "SubState") {
        Some(v) => v,
        None => String::from_str("unknown"),
    };
    let load_state = match lookup_prop(&pairs, "LoadState") {
        Some(v) => v,
        None => String::from_str("unknown"),
    };
    let unit_file_state = match lookup_prop(&pairs, "UnitFileState") {
        Some(v) => v,
        None => String::from_str("unknown"),
    };
    let description = lookup_prop(&pairs, "Description");
    let status = ServiceStatus::from(active_state.as_str());
    let enabled = str_eq(unit_file_state.as_str(), "enabled");
    let active = status == ServiceStatus::Active;
    ServiceInfo {
        name: name.to_owned(),
        status,
        description,
        enabled,
        active,
        load_state,
        sub_state,
    }
}

} // verus!
