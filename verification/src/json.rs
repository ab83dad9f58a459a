//! The registry's persisted form: one JSON object whose keys are the slot
//! numbers and whose values are the three string fields of each record.
//! The writer emits the members in ascending slot order with no extra
//! whitespace; the reader accepts any document of the schema — members
//! and fields in any order, insignificant whitespace anywhere between
//! tokens — as long as the slots are distinct, non-zero and canonically
//! written. Both are specified exactly, and reading back what was
//! written is proved to return the same registry.

use vstd::prelude::*;

use crate::config::Config;
use crate::config::ConfigEntry;
use crate::config::EntryModel;
use crate::config::wf_model;
use crate::numbers::digit_val;
use crate::numbers::spec_dec;
use crate::numbers::spec_all_digits;
use crate::numbers::spec_digit_val;
use crate::numbers::spec_num_val;
use crate::numbers::u32_to_dec;

verus! {

/// The lowercase hex digit for a value below sixteen.
pub open spec fn spec_hex_digit(d: nat) -> char {
    if d == 0 { '0' }
    else if d == 1 { '1' }
    else if d == 2 { '2' }
    else if d == 3 { '3' }
    else if d == 4 { '4' }
    else if d == 5 { '5' }
    else if d == 6 { '6' }
    else if d == 7 { '7' }
    else if d == 8 { '8' }
    else if d == 9 { '9' }
    else if d == 10 { 'a' }
    else if d == 11 { 'b' }
    else if d == 12 { 'c' }
    else if d == 13 { 'd' }
    else if d == 14 { 'e' }
    else { 'f' }
}

/// How one character is written inside a JSON string: quotes and
/// backslashes escaped, control characters as a four-digit escape, and
/// everything else verbatim.
pub open spec fn spec_escape_char(c: char) -> Seq<char> {
    if c == '"' {
        seq!['\\', '"']
    } else if c == '\\' {
        seq!['\\', '\\']
    } else if (c as u32) < 0x20 {
        seq!['\\', 'u', '0', '0'] + seq![
            spec_hex_digit((c as u32 / 16) as nat),
            spec_hex_digit((c as u32 % 16) as nat),
        ]
    } else {
        seq![c]
    }
}

/// The body of a JSON string: each character escaped as needed.
pub open spec fn spec_escape(s: Seq<char>) -> Seq<char>
    decreases s.len(),
{
    if s.len() == 0 {
        Seq::empty()
    } else {
        spec_escape_char(s[0]) + spec_escape(s.skip(1))
    }
}

/// A whole JSON string: the escaped body between quotes.
pub open spec fn spec_json_string(s: Seq<char>) -> Seq<char> {
    seq!['"'] + spec_escape(s) + seq!['"']
}

/// One field of a record object: its name and value as JSON strings.
pub open spec fn spec_field_json(name: Seq<char>, value: Seq<char>) -> Seq<char> {
    spec_json_string(name) + seq![':'] + spec_json_string(value)
}

/// One record object: the three string fields, written in fixed order.
pub open spec fn spec_record_json(e: EntryModel) -> Seq<char> {
    seq!['{'] + spec_field_json("image_file"@, e.image_file) + seq![','] + spec_field_json(
        "image_mount_point"@,
        e.image_mount_point,
    ) + seq![','] + spec_field_json("dm_mount_point"@, e.dm_mount_point) + seq!['}']
}

/// One object member: the slot number as a quoted decimal key, and the
/// record object.
pub open spec fn spec_entry_json(k: u32, e: EntryModel) -> Seq<char> {
    spec_json_string(spec_dec(k as nat)) + seq![':'] + spec_record_json(e)
}

/// The members of the registry object, comma-separated, in given order.
pub open spec fn spec_entries_json(m: Seq<(u32, EntryModel)>) -> Seq<char>
    decreases m.len(),
{
    if m.len() == 0 {
        Seq::empty()
    } else if m.len() == 1 {
        spec_entry_json(m[0].0, m[0].1)
    } else {
        spec_entry_json(m[0].0, m[0].1) + ","@ + spec_entries_json(m.skip(1))
    }
}

/// The registry document: all members inside one object.
pub open spec fn spec_registry_json(m: Seq<(u32, EntryModel)>) -> Seq<char> {
    "{"@ + spec_entries_json(m) + "}"@
}

/// Strictly ascending slot numbers.
pub open spec fn spec_sorted(m: Seq<(u32, EntryModel)>) -> bool {
    forall|i: int, j: int| 0 <= i < j < m.len() ==> (#[trigger] m[i]).0 < (#[trigger] m[j]).0
}

/// Inserts a record in front of the first member with a slot at least as
/// large.
pub open spec fn spec_insert_sorted(
    p: (u32, EntryModel),
    s: Seq<(u32, EntryModel)>,
) -> Seq<(u32, EntryModel)>
    decreases s.len(),
{
    if s.len() == 0 {
        seq![p]
    } else if p.0 <= s[0].0 {
        seq![p] + s
    } else {
        seq![s[0]] + spec_insert_sorted(p, s.skip(1))
    }
}

/// The registry in ascending slot order, by insertion sort.
pub open spec fn spec_sort(m: Seq<(u32, EntryModel)>) -> Seq<(u32, EntryModel)>
    decreases m.len(),
{
    if m.len() == 0 {
        Seq::empty()
    } else {
        spec_insert_sorted(m[0], spec_sort(m.skip(1)))
    }
}

/// Membership survives a sorted insertion, both ways.
proof fn lemma_insert_sorted_contains(p: (u32, EntryModel), s: Seq<(u32, EntryModel)>)
    ensures
        spec_insert_sorted(p, s).len() == s.len() + 1,
        forall|q: (u32, EntryModel)|
            #![trigger spec_insert_sorted(p, s).contains(q)]
            spec_insert_sorted(p, s).contains(q) <==> (q == p || s.contains(q)),
    decreases s.len(),
{
    let r = spec_insert_sorted(p, s);
    if s.len() == 0 {
        assert forall|q: (u32, EntryModel)| r.contains(q) implies (q == p || s.contains(q)) by {
            let i = choose|i: int| 0 <= i < r.len() && r[i] == q;
            assert(r[0] == p);
        }
        assert(r.contains(p)) by {
            assert(r[0] == p);
        }
    } else if p.0 <= s[0].0 {
        assert forall|q: (u32, EntryModel)| r.contains(q) implies (q == p || s.contains(q)) by {
            let i = choose|i: int| 0 <= i < r.len() && r[i] == q;
            if i > 0 {
                assert(s[i - 1] == q);
            }
        }
        assert forall|q: (u32, EntryModel)| (q == p || s.contains(q)) implies r.contains(q) by {
            if q == p {
                assert(r[0] == q);
            } else {
                let i = choose|i: int| 0 <= i < s.len() && s[i] == q;
                assert(r[i + 1] == q);
            }
        }
    } else {
        lemma_insert_sorted_contains(p, s.skip(1));
        let rest = spec_insert_sorted(p, s.skip(1));
        assert forall|q: (u32, EntryModel)| r.contains(q) implies (q == p || s.contains(q)) by {
            let i = choose|i: int| 0 <= i < r.len() && r[i] == q;
            if i == 0 {
                assert(s[0] == q);
                assert(s.contains(q));
            } else {
                assert(r[i] == rest[i - 1]);
                assert(rest[i - 1] == q);
                assert(rest.contains(q));
                if q != p {
                    assert(s.skip(1).contains(q));
                    let j = choose|j: int| 0 <= j < s.skip(1).len() && s.skip(1)[j] == q;
                    assert(s[j + 1] == q);
                    assert(s.contains(q));
                }
            }
        }
        assert forall|q: (u32, EntryModel)| (q == p || s.contains(q)) implies r.contains(q) by {
            if q == p {
                assert(rest.contains(q));
                let j = choose|j: int| 0 <= j < rest.len() && rest[j] == q;
                assert(r[j + 1] == q);
            } else {
                let i = choose|i: int| 0 <= i < s.len() && s[i] == q;
                if i == 0 {
                    assert(r[0] == q);
                } else {
                    assert(s.skip(1)[i - 1] == q);
                    assert(s.skip(1).contains(q));
                    assert(rest.contains(q));
                    let j = choose|j: int| 0 <= j < rest.len() && rest[j] == q;
                    assert(r[j + 1] == q);
                }
            }
        }
    }
}

/// Sorting preserves the records and their number.
pub proof fn lemma_sort_contains(m: Seq<(u32, EntryModel)>)
    ensures
        spec_sort(m).len() == m.len(),
        forall|q: (u32, EntryModel)|
            #![trigger spec_sort(m).contains(q)]
            spec_sort(m).contains(q) <==> m.contains(q),
    decreases m.len(),
{
    if m.len() > 0 {
        lemma_sort_contains(m.skip(1));
        lemma_insert_sorted_contains(m[0], spec_sort(m.skip(1)));
        assert(spec_sort(m) == spec_insert_sorted(m[0], spec_sort(m.skip(1))));
        assert forall|q: (u32, EntryModel)| spec_sort(m).contains(q) implies m.contains(q) by {
            assert(spec_insert_sorted(m[0], spec_sort(m.skip(1))).contains(q));
            if q == m[0] {
                assert(m.contains(q)) by {
                    assert(m[0] == q);
                }
            } else {
                assert(spec_sort(m.skip(1)).contains(q));
                assert(m.skip(1).contains(q));
                let j = choose|j: int| 0 <= j < m.skip(1).len() && m.skip(1)[j] == q;
                assert(m[j + 1] == q);
                assert(m.contains(q));
            }
        }
        assert forall|q: (u32, EntryModel)| m.contains(q) implies spec_sort(m).contains(q) by {
            let i = choose|i: int| 0 <= i < m.len() && m[i] == q;
            if i > 0 {
                assert(m.skip(1)[i - 1] == q);
                assert(m.skip(1).contains(q));
                assert(spec_sort(m.skip(1)).contains(q));
            } else {
                assert(q == m[0]);
            }
            assert(spec_insert_sorted(m[0], spec_sort(m.skip(1))).contains(q));
        }
    }
}

/// Inserting a slot no other member carries keeps the order strict.
proof fn lemma_insert_sorted_sorted(p: (u32, EntryModel), s: Seq<(u32, EntryModel)>)
    requires
        spec_sorted(s),
        forall|i: int| 0 <= i < s.len() ==> (#[trigger] s[i]).0 != p.0,
    ensures
        spec_sorted(spec_insert_sorted(p, s)),
    decreases s.len(),
{
    let r = spec_insert_sorted(p, s);
    if s.len() == 0 {
    } else if p.0 <= s[0].0 {
        assert forall|i: int, j: int| 0 <= i < j < r.len() implies (#[trigger] r[i]).0 < (
        #[trigger] r[j]).0 by {
            if i == 0 {
                assert(r[j] == s[j - 1]);
                assert(p.0 != s[j - 1].0);
                if j - 1 > 0 {
                    assert(s[0].0 < s[j - 1].0);
                }
            } else {
                assert(r[i] == s[i - 1] && r[j] == s[j - 1]);
            }
        }
    } else {
        assert(spec_sorted(s.skip(1))) by {
            assert(forall|i: int, j: int|
                0 <= i < j < s.skip(1).len() ==> (#[trigger] s.skip(1)[i]).0 < (
                #[trigger] s.skip(1)[j]).0);
        }
        assert(forall|i: int| 0 <= i < s.skip(1).len() ==> (#[trigger] s.skip(1)[i]).0 != p.0);
        lemma_insert_sorted_sorted(p, s.skip(1));
        let rest = spec_insert_sorted(p, s.skip(1));
        lemma_insert_sorted_contains(p, s.skip(1));
        assert forall|i: int, j: int| 0 <= i < j < r.len() implies (#[trigger] r[i]).0 < (
        #[trigger] r[j]).0 by {
            if i == 0 {
                assert(r[0] == s[0]);
                assert(r[j] == rest[j - 1]);
                assert(rest.contains(rest[j - 1]));
                if rest[j - 1] == p {
                    assert(s[0].0 < p.0);
                } else {
                    assert(s.skip(1).contains(rest[j - 1]));
                    let t = choose|t: int|
                        0 <= t < s.skip(1).len() && s.skip(1)[t] == rest[j - 1];
                    assert(s[t + 1] == rest[j - 1]);
                    assert(s[0].0 < s[t + 1].0);
                }
            } else {
                assert(r[i] == rest[i - 1] && r[j] == rest[j - 1]);
            }
        }
    }
}

/// Sorting a well-formed registry gives strictly ascending slots.
pub proof fn lemma_sort_sorted(m: Seq<(u32, EntryModel)>)
    requires
        wf_model(m),
    ensures
        spec_sorted(spec_sort(m)),
        wf_model(spec_sort(m)),
    decreases m.len(),
{
    if m.len() > 0 {
        let tail = m.skip(1);
        assert(wf_model(tail)) by {
            assert(forall|i: int, j: int|
                0 <= i < j < tail.len() ==> (#[trigger] tail[i]).0 != (#[trigger] tail[j]).0);
            assert(forall|i: int| 0 <= i < tail.len() ==> (#[trigger] tail[i]).0 != 0);
        }
        lemma_sort_sorted(tail);
        lemma_sort_contains(tail);
        assert forall|i: int| 0 <= i < spec_sort(tail).len() implies (#[trigger] spec_sort(
            tail,
        )[i]).0 != m[0].0 by {
            assert(spec_sort(tail).contains(spec_sort(tail)[i]));
            assert(tail.contains(spec_sort(tail)[i]));
            let t = choose|t: int| 0 <= t < tail.len() && tail[t] == spec_sort(tail)[i];
            assert(m[t + 1] == tail[t]);
        }
        lemma_insert_sorted_sorted(m[0], spec_sort(tail));
        lemma_insert_sorted_contains(m[0], spec_sort(tail));
        let r = spec_sort(m);
        assert forall|i: int| 0 <= i < r.len() implies (#[trigger] r[i]).0 != 0 by {
            assert(r.contains(r[i]));
            if r[i] == m[0] {
            } else {
                assert(spec_sort(tail).contains(r[i]));
                assert(tail.contains(r[i]));
                let t = choose|t: int| 0 <= t < tail.len() && tail[t] == r[i];
                assert(m[t + 1] == tail[t]);
            }
        }
        assert(wf_model(r)) by {
            assert(spec_sorted(r));
            assert(forall|i: int, j: int|
                0 <= i < j < r.len() ==> (#[trigger] r[i]).0 != (#[trigger] r[j]).0);
        }
    }
}

/// The character with the given code.
pub open spec fn spec_char_of(v: u32) -> char {
    v as char
}

/// JSON's insignificant whitespace.
pub open spec fn spec_is_json_ws(c: char) -> bool {
    c == ' ' || c == '\t' || c == '\n' || c == '\r'
}

/// Drops leading insignificant whitespace.
pub open spec fn spec_skip_ws(s: Seq<char>) -> Seq<char>
    decreases s.len(),
{
    if s.len() > 0 && spec_is_json_ws(s[0]) {
        spec_skip_ws(s.skip(1))
    } else {
        s
    }
}

/// Reads a JSON string body up to its closing quote: escaped quotes and
/// backslashes, four-digit escapes of one-byte codes, everything else
/// verbatim. Yields the content and what follows the closing quote.
pub open spec fn spec_parse_str_body(s: Seq<char>) -> Option<(Seq<char>, Seq<char>)>
    decreases s.len(),
{
    if s.len() == 0 {
        None
    } else if s[0] == '"' {
        Some((Seq::empty(), s.skip(1)))
    } else if s[0] == '\\' {
        if s.len() >= 2 && (s[1] == '"' || s[1] == '\\') {
            match spec_parse_str_body(s.skip(2)) {
                Some(p) => Some((seq![s[1]] + p.0, p.1)),
                None => None,
            }
        } else if s.len() >= 6 && s[1] == 'u' && s[2] == '0' && s[3] == '0' && spec_digit_val(
            s[4],
        ) < 16 && spec_digit_val(s[5]) < 16 {
            let v = spec_digit_val(s[4]) * 16 + spec_digit_val(s[5]);
            match spec_parse_str_body(s.skip(6)) {
                Some(p) => Some((seq![spec_char_of(v as u32)] + p.0, p.1)),
                None => None,
            }
        } else {
            None
        }
    } else {
        match spec_parse_str_body(s.skip(1)) {
            Some(p) => Some((seq![s[0]] + p.0, p.1)),
            None => None,
        }
    }
}

/// Reads a whole JSON string, opening quote included.
pub open spec fn spec_parse_string(s: Seq<char>) -> Option<(Seq<char>, Seq<char>)> {
    if s.len() > 0 && s[0] == '"' {
        spec_parse_str_body(s.skip(1))
    } else {
        None
    }
}

/// The slot number a key string denotes: canonical decimal, no leading
/// zero, at least 1, at most one u32.
pub open spec fn spec_key_val(d: Seq<char>) -> Option<u32> {
    if d.len() > 0 && spec_all_digits(d, 10) && d[0] != '0' && 1 <= spec_num_val(d, 10)
        <= u32::MAX {
        Some(spec_num_val(d, 10) as u32)
    } else {
        None
    }
}

/// Reads one `"name": "value"` field, whitespace allowed around the
/// tokens; yields the name and value contents and the rest.
pub open spec fn spec_parse_field(s: Seq<char>) -> Option<(Seq<char>, Seq<char>, Seq<char>)> {
    match spec_parse_string(spec_skip_ws(s)) {
        None => None,
        Some((name, r1)) => {
            let r1b = spec_skip_ws(r1);
            if r1b.len() == 0 || r1b[0] != ':' {
                None
            } else {
                match spec_parse_string(spec_skip_ws(r1b.skip(1))) {
                    None => None,
                    Some((value, r2)) => Some((name, value, r2)),
                }
            }
        },
    }
}

/// The three field names of a record.
pub open spec fn spec_field_name_ok(n: Seq<char>) -> bool {
    n == "image_file"@ || n == "image_mount_point"@ || n == "dm_mount_point"@
}

/// The value of the wanted field among three parsed ones.
pub open spec fn spec_field_pick(
    n1: Seq<char>,
    v1: Seq<char>,
    n2: Seq<char>,
    v2: Seq<char>,
    n3: Seq<char>,
    v3: Seq<char>,
    want: Seq<char>,
) -> Seq<char> {
    if n1 == want {
        v1
    } else if n2 == want {
        v2
    } else {
        v3
    }
}

/// A record from three parsed fields: each name one of the three known
/// ones and all three distinct, so each field is present exactly once,
/// in any order.
pub open spec fn spec_assemble(
    n1: Seq<char>,
    v1: Seq<char>,
    n2: Seq<char>,
    v2: Seq<char>,
    n3: Seq<char>,
    v3: Seq<char>,
) -> Option<EntryModel> {
    if spec_field_name_ok(n1) && spec_field_name_ok(n2) && spec_field_name_ok(n3) && n1 != n2
        && n1 != n3 && n2 != n3 {
        Some(
            EntryModel {
                image_file: spec_field_pick(n1, v1, n2, v2, n3, v3, "image_file"@),
                image_mount_point: spec_field_pick(n1, v1, n2, v2, n3, v3, "image_mount_point"@),
                dm_mount_point: spec_field_pick(n1, v1, n2, v2, n3, v3, "dm_mount_point"@),
            },
        )
    } else {
        None
    }
}

/// Reads one record object: three fields, any order, each exactly once.
pub open spec fn spec_parse_record(s: Seq<char>) -> Option<(EntryModel, Seq<char>)> {
    let s0 = spec_skip_ws(s);
    if s0.len() == 0 || s0[0] != '{' {
        None
    } else {
        match spec_parse_field(s0.skip(1)) {
            None => None,
            Some((n1, v1, r1)) => {
                let r1b = spec_skip_ws(r1);
                if r1b.len() == 0 || r1b[0] != ',' {
                    None
                } else {
                    match spec_parse_field(r1b.skip(1)) {
                        None => None,
                        Some((n2, v2, r2)) => {
                            let r2b = spec_skip_ws(r2);
                            if r2b.len() == 0 || r2b[0] != ',' {
                                None
                            } else {
                                match spec_parse_field(r2b.skip(1)) {
                                    None => None,
                                    Some((n3, v3, r3)) => {
                                        let r3b = spec_skip_ws(r3);
                                        if r3b.len() == 0 || r3b[0] != '}' {
                                            None
                                        } else {
                                            match spec_assemble(n1, v1, n2, v2, n3, v3) {
                                                None => None,
                                                Some(e) => Some((e, r3b.skip(1))),
                                            }
                                        }
                                    },
                                }
                            }
                        },
                    }
                }
            },
        }
    }
}

/// Reads one member: a key naming a slot, a colon, and a record.
pub open spec fn spec_parse_member(s: Seq<char>) -> Option<((u32, EntryModel), Seq<char>)> {
    match spec_parse_string(spec_skip_ws(s)) {
        None => None,
        Some((key, r1)) => match spec_key_val(key) {
            None => None,
            Some(k) => {
                let r1b = spec_skip_ws(r1);
                if r1b.len() == 0 || r1b[0] != ':' {
                    None
                } else {
                    match spec_parse_record(r1b.skip(1)) {
                        None => None,
                        Some((e, r2)) => Some(((k, e), r2)),
                    }
                }
            },
        },
    }
}

/// Reads the members of a non-empty registry object, in written order,
/// up to and including the closing brace.
pub open spec fn spec_parse_members(s: Seq<char>) -> Option<(Seq<(u32, EntryModel)>, Seq<char>)>
    decreases s.len(),
{
    match spec_parse_member(s) {
        None => None,
        Some((kv, r)) => {
            let rb = spec_skip_ws(r);
            if rb.len() == 0 {
                None
            } else if rb[0] == '}' {
                Some((seq![kv], rb.skip(1)))
            } else if rb[0] == ',' {
                if rb.len() >= s.len() {
                    // a member always consumes at least one character
                    None
                } else {
                    match spec_parse_members(rb.skip(1)) {
                        None => None,
                        Some((es, r2)) => Some((seq![kv] + es, r2)),
                    }
                }
            } else {
                None
            }
        },
    }
}

/// Pairwise distinct slot numbers.
pub open spec fn spec_keys_distinct(m: Seq<(u32, EntryModel)>) -> bool {
    forall|i: int, j: int| 0 <= i < j < m.len() ==> (#[trigger] m[i]).0 != (#[trigger] m[j]).0
}

/// Reads a whole registry document: one object whose keys are distinct
/// non-zero slot numbers in any order, with nothing but whitespace
/// around and after it.
pub open spec fn spec_parse_registry(s: Seq<char>) -> Option<Seq<(u32, EntryModel)>> {
    let s0 = spec_skip_ws(s);
    if s0.len() == 0 || s0[0] != '{' {
        None
    } else {
        let s1 = spec_skip_ws(s0.skip(1));
        if s1.len() > 0 && s1[0] == '}' {
            if spec_skip_ws(s1.skip(1)).len() == 0 {
                Some(Seq::empty())
            } else {
                None
            }
        } else {
            match spec_parse_members(s0.skip(1)) {
                None => None,
                Some((es, r)) => if spec_skip_ws(r).len() == 0 && spec_keys_distinct(es) {
                    Some(es)
                } else {
                    None
                },
            }
        }
    }
}

/// Every member the parser accepts carries a slot of at least 1.
proof fn lemma_parse_members_keys(s: Seq<char>)
    requires
        spec_parse_members(s) is Some,
    ensures
        ({
            let es = spec_parse_members(s)->Some_0.0;
            &&& es.len() >= 1
            &&& forall|i: int| 0 <= i < es.len() ==> (#[trigger] es[i]).0 >= 1
        }),
    decreases s.len(),
{
    let (kv, r) = spec_parse_member(s)->Some_0;
    let rb = spec_skip_ws(r);
    let es = spec_parse_members(s)->Some_0.0;
    assert(kv.0 >= 1);
    if rb[0] == '}' {
    } else {
        let tail = spec_parse_members(rb.skip(1))->Some_0.0;
        lemma_parse_members_keys(rb.skip(1));
        assert(es == seq![kv] + tail);
        assert forall|i: int| 0 <= i < es.len() implies (#[trigger] es[i]).0 >= 1 by {
            if i > 0 {
                assert(es[i] == tail[i - 1]);
            }
        }
    }
}

/// Whatever the document parser accepts is a well-formed registry.
pub proof fn lemma_parse_registry_wf(s: Seq<char>)
    requires
        spec_parse_registry(s) is Some,
    ensures
        wf_model(spec_parse_registry(s)->Some_0),
{
    let es = spec_parse_registry(s)->Some_0;
    let s0 = spec_skip_ws(s);
    let s1 = spec_skip_ws(s0.skip(1));
    if s1.len() > 0 && s1[0] == '}' {
    } else {
        lemma_parse_members_keys(s0.skip(1));
        assert(forall|i: int| 0 <= i < es.len() ==> (#[trigger] es[i]).0 != 0);
    }
}

fn hex_str(d: u32) -> (r: &'static str)
    requires
        d < 16,
    ensures
        r@ =~= seq![spec_hex_digit(d as nat)],
{
    proof {
        reveal_strlit("0");
        reveal_strlit("1");
        reveal_strlit("2");
        reveal_strlit("3");
        reveal_strlit("4");
        reveal_strlit("5");
        reveal_strlit("6");
        reveal_strlit("7");
        reveal_strlit("8");
        reveal_strlit("9");
        reveal_strlit("a");
        reveal_strlit("b");
        reveal_strlit("c");
        reveal_strlit("d");
        reveal_strlit("e");
        reveal_strlit("f");
    }
    if d == 0 { "0" }
    else if d == 1 { "1" }
    else if d == 2 { "2" }
    else if d == 3 { "3" }
    else if d == 4 { "4" }
    else if d == 5 { "5" }
    else if d == 6 { "6" }
    else if d == 7 { "7" }
    else if d == 8 { "8" }
    else if d == 9 { "9" }
    else if d == 10 { "a" }
    else if d == 11 { "b" }
    else if d == 12 { "c" }
    else if d == 13 { "d" }
    else if d == 14 { "e" }
    else { "f" }
}

/// Escapes the body of one JSON string.
fn escape_str(s: &str) -> (r: String)
    ensures
        r@ == spec_escape(s@),
    decreases s@.len(),
{
    let n = s.unicode_len();
    if n == 0 {
        let r = String::new();
        proof {
            assert(r@ =~= spec_escape(s@));
        }
        return r;
    }
    let c = s.get_char(0);
    let rest = escape_str(s.substring_char(1, n));
    proof {
        assert(s@.subrange(1, n as int) =~= s@.skip(1));
    }
    let mut out: String;
    if c == '"' {
        out = "\\\"".to_owned();
        proof {
            reveal_strlit("\\\"");
            assert(out@ =~= spec_escape_char(c));
        }
    } else if c == '\\' {
        out = "\\\\".to_owned();
        proof {
            reveal_strlit("\\\\");
            assert(out@ =~= spec_escape_char(c));
        }
    } else if (c as u32) < 0x20 {
        out = "\\u00".to_owned();
        out.append(hex_str(c as u32 / 16));
        out.append(hex_str(c as u32 % 16));
        proof {
            reveal_strlit("\\u00");
            assert(out@ =~= spec_escape_char(c));
        }
    } else {
        out = s.substring_char(0, 1).to_owned();
        proof {
            assert(out@ =~= spec_escape_char(c));
        }
    }
    out.append(rest.as_str());
    proof {
        assert(out@ =~= spec_escape(s@));
    }
    out
}

/// Writes one JSON string, quotes included.
fn json_string_str(s: &str) -> (r: String)
    ensures
        r@ == spec_json_string(s@),
{
    let mut out = "\"".to_owned();
    let body = escape_str(s);
    out.append(body.as_str());
    out.append("\"");
    proof {
        reveal_strlit("\"");
        assert(out@ =~= spec_json_string(s@));
    }
    out
}

/// Writes one `"name":"value"` field.
fn field_json_str(name: &str, value: &str) -> (r: String)
    ensures
        r@ == spec_field_json(name@, value@),
{
    let mut out = json_string_str(name);
    out.append(":");
    let v = json_string_str(value);
    out.append(v.as_str());
    proof {
        reveal_strlit(":");
        assert(out@ =~= spec_field_json(name@, value@));
    }
    out
}

/// Writes one record object, fields in fixed order.
fn record_json_str(e: &ConfigEntry) -> (r: String)
    ensures
        r@ == spec_record_json(e@),
{
    let mut out = "{".to_owned();
    let f1 = field_json_str("image_file", e.image_file.as_str());
    out.append(f1.as_str());
    out.append(",");
    let f2 = field_json_str("image_mount_point", e.image_mount_point.as_str());
    out.append(f2.as_str());
    out.append(",");
    let f3 = field_json_str("dm_mount_point", e.dm_mount_point.as_str());
    out.append(f3.as_str());
    out.append("}");
    proof {
        reveal_strlit("{");
        reveal_strlit(",");
        reveal_strlit("}");
        assert(out@ =~= spec_record_json(e@));
    }
    out
}

/// Writes one member of the registry object.
fn entry_json_str(k: u32, e: &ConfigEntry) -> (r: String)
    ensures
        r@ == spec_entry_json(k, e@),
{
    let key = u32_to_dec(k);
    let mut out = json_string_str(key.as_str());
    out.append(":");
    let rec = record_json_str(e);
    out.append(rec.as_str());
    proof {
        reveal_strlit(":");
        assert(out@ =~= spec_entry_json(k, e@));
    }
    out
}

/// Writes the members from position `i` on, comma-separated.
fn entries_json_from(v: &Vec<(u32, ConfigEntry)>, i: usize) -> (r: String)
    requires
        i <= v@.len(),
    ensures
        r@ == spec_entries_json(
            v@.map_values(|p: (u32, ConfigEntry)| (p.0, p.1@)).skip(i as int),
        ),
    decreases v@.len() - i,
{
    let ghost m = v@.map_values(|p: (u32, ConfigEntry)| (p.0, p.1@));
    let n = v.len();
    if i == n {
        let r = String::new();
        proof {
            assert(m.skip(i as int).len() == 0);
            assert(r@ =~= spec_entries_json(m.skip(i as int)));
        }
        return r;
    }
    let mut out = entry_json_str(v[i].0, &v[i].1);
    proof {
        assert(m.skip(i as int)[0] == m[i as int]);
    }
    if i + 1 == n {
        proof {
            assert(m.skip(i as int).len() == 1);
            assert(out@ =~= spec_entries_json(m.skip(i as int)));
        }
        return out;
    }
    out.append(",");
    let rest = entries_json_from(v, i + 1);
    out.append(rest.as_str());
    proof {
        reveal_strlit(",");
        assert(m.skip(i as int).skip(1) =~= m.skip(i as int + 1));
        assert(out@ =~= spec_entries_json(m.skip(i as int)));
    }
    out
}

/// The position of the first member whose slot is at least `key`.
proof fn lemma_insert_position(p: (u32, EntryModel), s: Seq<(u32, EntryModel)>, j: int)
    requires
        0 <= j <= s.len(),
        forall|k: int| 0 <= k < j ==> (#[trigger] s[k]).0 < p.0,
        j < s.len() ==> p.0 <= s[j].0,
    ensures
        spec_insert_sorted(p, s) == s.subrange(0, j) + seq![p] + s.skip(j),
    decreases j,
{
    if j == 0 {
        if s.len() == 0 {
            assert(spec_insert_sorted(p, s) =~= s.subrange(0, 0) + seq![p] + s.skip(0));
        } else {
            assert(seq![p] + s =~= s.subrange(0, 0) + seq![p] + s.skip(0));
        }
    } else {
        let tail = s.skip(1);
        assert forall|k: int| 0 <= k < j - 1 implies (#[trigger] tail[k]).0 < p.0 by {
            assert(tail[k] == s[k + 1]);
        }
        if j - 1 < tail.len() {
            assert(tail[j - 1] == s[j]);
        }
        lemma_insert_position(p, tail, j - 1);
        assert(spec_insert_sorted(p, s) == seq![s[0]] + (tail.subrange(0, j - 1) + seq![p]
            + tail.skip(j - 1)));
        assert(seq![s[0]] + (tail.subrange(0, j - 1) + seq![p] + tail.skip(j - 1)) =~= s.subrange(
            0,
            j,
        ) + seq![p] + s.skip(j));
    }
}

/// Clones one stored record.
fn clone_pair(p: &(u32, ConfigEntry)) -> (r: (u32, ConfigEntry))
    ensures
        r.0 == p.0,
        r.1@ == p.1@,
{
    (
        p.0,
        ConfigEntry {
            image_file: p.1.image_file.clone(),
            image_mount_point: p.1.image_mount_point.clone(),
            dm_mount_point: p.1.dm_mount_point.clone(),
        },
    )
}

/// The position of the first member whose slot is at least `key`.
fn insert_pos(v: &Vec<(u32, ConfigEntry)>, key: u32) -> (j: usize)
    ensures
        ({
            let m = v@.map_values(|q: (u32, ConfigEntry)| (q.0, q.1@));
            &&& j <= m.len()
            &&& forall|k: int| 0 <= k < j ==> (#[trigger] m[k]).0 < key
            &&& j < m.len() ==> key <= m[j as int].0
        }),
{
    let ghost m = v@.map_values(|q: (u32, ConfigEntry)| (q.0, q.1@));
    let n = v.len();
    let mut i: usize = 0;
    while i < n
        invariant
            i <= n,
            n == v@.len(),
            m == v@.map_values(|q: (u32, ConfigEntry)| (q.0, q.1@)),
            forall|k: int| 0 <= k < i ==> (#[trigger] m[k]).0 < key,
        decreases n - i,
    {
        if key <= v[i].0 {
            proof {
                assert(m[i as int].0 == v@[i as int].0);
            }
            return i;
        }
        proof {
            assert(m[i as int].0 == v@[i as int].0);
        }
        i = i + 1;
    }
    n
}

/// Inserts a record in front of the first member with a slot at least as
/// large, keeping the rest in place.
fn insert_one(out: &mut Vec<(u32, ConfigEntry)>, p: (u32, ConfigEntry))
    ensures
        final(out)@.map_values(|q: (u32, ConfigEntry)| (q.0, q.1@)) == spec_insert_sorted(
            (p.0, p.1@),
            old(out)@.map_values(|q: (u32, ConfigEntry)| (q.0, q.1@)),
        ),
{
    let ghost m0 = out@.map_values(|q: (u32, ConfigEntry)| (q.0, q.1@));
    let ghost pm = (p.0, p.1@);
    let j = insert_pos(out, p.0);
    proof {
        lemma_insert_position(pm, m0, j as int);
    }
    out.insert(j, p);
    proof {
        assert(final(out)@.map_values(|q: (u32, ConfigEntry)| (q.0, q.1@)) =~= m0.subrange(
            0,
            j as int,
        ) + seq![pm] + m0.skip(j as int));
    }
}

/// The stored records in ascending slot order.
fn sorted_entries(v: &Vec<(u32, ConfigEntry)>) -> (r: Vec<(u32, ConfigEntry)>)
    ensures
        r@.map_values(|q: (u32, ConfigEntry)| (q.0, q.1@)) == spec_sort(
            v@.map_values(|q: (u32, ConfigEntry)| (q.0, q.1@)),
        ),
{
    let ghost m = v@.map_values(|q: (u32, ConfigEntry)| (q.0, q.1@));
    let n = v.len();
    let mut r: Vec<(u32, ConfigEntry)> = Vec::new();
    let mut i: usize = n;
    proof {
        assert(m.skip(n as int).len() == 0);
        assert(r@.map_values(|q: (u32, ConfigEntry)| (q.0, q.1@)) =~= spec_sort(
            m.skip(n as int),
        ));
    }
    while i > 0
        invariant
            i <= n,
            n == v@.len(),
            m == v@.map_values(|q: (u32, ConfigEntry)| (q.0, q.1@)),
            r@.map_values(|q: (u32, ConfigEntry)| (q.0, q.1@)) == spec_sort(m.skip(i as int)),
        decreases i,
    {
        i = i - 1;
        let p = clone_pair(&v[i]);
        proof {
            assert((p.0, p.1@) == m[i as int]);
        }
        insert_one(&mut r, p);
        proof {
            assert(m.skip(i as int)[0] == m[i as int]);
            assert(m.skip(i as int).skip(1) =~= m.skip(i as int + 1));
            assert(spec_sort(m.skip(i as int)) == spec_insert_sorted(
                m[i as int],
                spec_sort(m.skip(i as int + 1)),
            ));
        }
    }
    proof {
        assert(m.skip(0) =~= m);
    }
    r
}

impl Config {
    /// The persisted form of the registry: one JSON object, slots as keys
    /// in ascending order, each record with its three string fields. The
    /// same registry always serializes to the same bytes.
    pub fn to_json(&self) -> (r: String)
        ensures
            r@ == spec_registry_json(spec_sort(self@)),
    {
        let sorted = sorted_entries(self.entries_ref());
        let mut out = "{".to_owned();
        let body = entries_json_from(&sorted, 0);
        out.append(body.as_str());
        out.append("}");
        proof {
            reveal_strlit("{");
            reveal_strlit("}");
            assert(sorted@.map_values(|q: (u32, ConfigEntry)| (q.0, q.1@)).skip(0) =~= spec_sort(
                self@,
            ));
            assert(out@ =~= spec_registry_json(spec_sort(self@)));
        }
        out
    }
}

/// Reads a JSON string body, mirroring `spec_parse_str_body`.
fn p_body(rem: &str) -> (r: Option<(String, String)>)
    ensures
        match r {
            Some(p) => spec_parse_str_body(rem@) == Some((p.0@, p.1@)),
            None => spec_parse_str_body(rem@) is None,
        },
    decreases rem@.len(),
{
    let n = rem.unicode_len();
    if n == 0 {
        return None;
    }
    let c0 = rem.get_char(0);
    if c0 == '"' {
        let content = String::new();
        let rest = rem.substring_char(1, n).to_owned();
        proof {
            assert(rest@ =~= rem@.skip(1));
        }
        return Some((content, rest));
    }
    if c0 == '\\' {
        if n >= 2 {
            let c1 = rem.get_char(1);
            if c1 == '"' || c1 == '\\' {
                proof {
                    assert(rem@.subrange(2, n as int) =~= rem@.skip(2));
                }
                return match p_body(rem.substring_char(2, n)) {
                    None => None,
                    Some((content, rest)) => {
                        let mut out = rem.substring_char(1, 2).to_owned();
                        out.append(content.as_str());
                        proof {
                            assert(out@ =~= seq![rem@[1]] + content@);
                        }
                        Some((out, rest))
                    },
                };
            }
            if n >= 6 && c1 == 'u' && rem.get_char(2) == '0' && rem.get_char(3) == '0' {
                let d1 = digit_val(rem.get_char(4));
                let d2 = digit_val(rem.get_char(5));
                if d1 < 16 && d2 < 16 {
                    proof {
                        assert(rem@.subrange(6, n as int) =~= rem@.skip(6));
                    }
                    return match p_body(rem.substring_char(6, n)) {
                        None => None,
                        Some((content, rest)) => {
                            let v = d1 * 16 + d2;
                            let ch = (v as u8) as char;
                            let mut out = String::new();
                            proof {
                                assert(ch as u32 == v);
                                vstd::utf8::char_u32_cast(ch, v);
                            }
                            crate::text::push_char(&mut out, ch);
                            out.append(content.as_str());
                            proof {
                                assert(out@ =~= seq![spec_char_of(v as u32)] + content@);
                            }
                            Some((out, rest))
                        },
                    };
                }
                return None;
            }
        }
        return None;
    }
    proof {
        assert(rem@.subrange(1, n as int) =~= rem@.skip(1));
    }
    match p_body(rem.substring_char(1, n)) {
        None => None,
        Some((content, rest)) => {
            let mut out = rem.substring_char(0, 1).to_owned();
            out.append(content.as_str());
            proof {
                assert(out@ =~= seq![rem@[0]] + content@);
            }
            Some((out, rest))
        },
    }
}

/// Reads a whole JSON string, mirroring `spec_parse_string`.
fn p_string(rem: &str) -> (r: Option<(String, String)>)
    ensures
        match r {
            Some(p) => spec_parse_string(rem@) == Some((p.0@, p.1@)),
            None => spec_parse_string(rem@) is None,
        },
{
    let n = rem.unicode_len();
    if n == 0 || rem.get_char(0) != '"' {
        return None;
    }
    proof {
        assert(rem@.subrange(1, n as int) =~= rem@.skip(1));
    }
    p_body(rem.substring_char(1, n))
}

/// The index after the leading run of decimal digits.
fn digits_end(rem: &str) -> (i: usize)
    ensures
        i <= rem@.len(),
        forall|k: int| 0 <= k < i ==> spec_digit_val(#[trigger] rem@[k]) < 10,
        i < rem@.len() ==> spec_digit_val(rem@[i as int]) >= 10,
{
    let n = rem.unicode_len();
    let mut i: usize = 0;
    while i < n
        invariant
            i <= n,
            n == rem@.len(),
            forall|k: int| 0 <= k < i ==> spec_digit_val(#[trigger] rem@[k]) < 10,
        decreases n - i,
    {
        if digit_val(rem.get_char(i)) >= 10 {
            return i;
        }
        i = i + 1;
    }
    n
}

/// Reads a decimal digit string as one u32, mirroring the value function;
/// too large a value is rejected like a malformed string.
fn parse_u32_dec(d: &str) -> (r: Option<u32>)
    requires
        crate::numbers::spec_all_digits(d@, 10),
        d@.len() > 0,
    ensures
        match r {
            Some(v) => spec_num_val(d@, 10) == v,
            None => spec_num_val(d@, 10) > u32::MAX,
        },
{
    let n = d.unicode_len();
    let mut acc: u32 = 0;
    let mut i: usize = 0;
    while i < n
        invariant
            i <= n,
            n == d@.len(),
            crate::numbers::spec_all_digits(d@, 10),
            acc == spec_num_val(d@.subrange(0, i as int), 10),
        decreases n - i,
    {
        let c = d.get_char(i);
        let dv = digit_val(c);
        proof {
            assert(spec_digit_val(d@[i as int]) < 10);
            let pre = d@.subrange(0, i as int);
            let ext = d@.subrange(0, i as int + 1);
            assert(ext.drop_last() =~= pre);
            assert(ext.last() == d@[i as int]);
            assert(spec_num_val(ext, 10) == spec_num_val(pre, 10) * 10 + spec_digit_val(
                d@[i as int],
            ));
        }
        if acc > (u32::MAX - dv) / 10 {
            proof {
                assert(acc * 10 + dv > u32::MAX) by (nonlinear_arith)
                    requires
                        acc as int > (u32::MAX as int - dv as int) / 10,
                        dv < 10,
                {}
                crate::numbers::lemma_num_val_extends(d@, 10, i as int + 1);
            }
            return None;
        }
        proof {
            assert(acc * 10 + dv <= u32::MAX) by (nonlinear_arith)
                requires
                    acc as int <= (u32::MAX as int - dv as int) / 10,
                    dv < 10,
            {}
        }
        acc = acc * 10 + dv;
        i = i + 1;
    }
    proof {
        assert(d@.subrange(0, n as int) =~= d@);
    }
    Some(acc)
}

fn is_json_ws(c: char) -> (r: bool)
    ensures
        r == spec_is_json_ws(c),
{
    c == ' ' || c == '\t' || c == '\n' || c == '\r'
}

/// A scan that stops at the first non-whitespace character characterizes
/// `spec_skip_ws`.
proof fn lemma_skip_ws_char(s: Seq<char>, i: int)
    requires
        0 <= i <= s.len(),
        forall|k: int| 0 <= k < i ==> spec_is_json_ws(#[trigger] s[k]),
        i < s.len() ==> !spec_is_json_ws(s[i]),
    ensures
        spec_skip_ws(s) == s.skip(i),
    decreases i,
{
    if i == 0 {
        assert(spec_skip_ws(s) =~= s.skip(0));
    } else {
        let tail = s.skip(1);
        assert forall|k: int| 0 <= k < i - 1 implies spec_is_json_ws(#[trigger] tail[k]) by {
            assert(tail[k] == s[k + 1]);
        }
        if i - 1 < tail.len() {
            assert(tail[i - 1] == s[i]);
        }
        lemma_skip_ws_char(tail, i - 1);
        assert(tail.skip(i - 1) =~= s.skip(i));
    }
}

/// The index after the leading run of insignificant whitespace.
fn ws_end(rem: &str) -> (i: usize)
    ensures
        i <= rem@.len(),
        forall|k: int| 0 <= k < i ==> spec_is_json_ws(#[trigger] rem@[k]),
        i < rem@.len() ==> !spec_is_json_ws(rem@[i as int]),
{
    let n = rem.unicode_len();
    let mut i: usize = 0;
    while i < n
        invariant
            i <= n,
            n == rem@.len(),
            forall|k: int| 0 <= k < i ==> spec_is_json_ws(#[trigger] rem@[k]),
        decreases n - i,
    {
        if !is_json_ws(rem.get_char(i)) {
            return i;
        }
        i = i + 1;
    }
    n
}

/// Drops leading insignificant whitespace, mirroring `spec_skip_ws`.
fn skip_ws_str(rem: &str) -> (r: String)
    ensures
        r@ == spec_skip_ws(rem@),
{
    let n = rem.unicode_len();
    let i = ws_end(rem);
    proof {
        lemma_skip_ws_char(rem@, i as int);
    }
    let r = rem.substring_char(i, n).to_owned();
    proof {
        assert(r@ =~= rem@.skip(i as int));
    }
    r
}

/// Reads one field, mirroring `spec_parse_field`.
fn p_field(rem: &str) -> (r: Option<(String, String, String)>)
    ensures
        match r {
            Some(p) => spec_parse_field(rem@) == Some((p.0@, p.1@, p.2@)),
            None => spec_parse_field(rem@) is None,
        },
{
    let s0 = skip_ws_str(rem);
    let (name, r1) = match p_string(s0.as_str()) {
        None => {
            return None;
        },
        Some(x) => x,
    };
    let r1b = skip_ws_str(r1.as_str());
    let r1bn = r1b.as_str().unicode_len();
    if r1bn == 0 || r1b.as_str().get_char(0) != ':' {
        return None;
    }
    proof {
        assert(r1b@.subrange(1, r1bn as int) =~= r1b@.skip(1));
    }
    let r2 = skip_ws_str(r1b.as_str().substring_char(1, r1bn));
    match p_string(r2.as_str()) {
        None => None,
        Some((value, r3)) => Some((name, value, r3)),
    }
}

/// Whether a parsed name is one of the record's three field names.
fn field_name_ok(n: &str) -> (r: bool)
    ensures
        r == spec_field_name_ok(n@),
{
    if crate::text::str_eq(n, "image_file") {
        return true;
    }
    if crate::text::str_eq(n, "image_mount_point") {
        return true;
    }
    crate::text::str_eq(n, "dm_mount_point")
}

/// Reads one record object, mirroring `spec_parse_record`.
fn p_record(rem: &str) -> (r: Option<(ConfigEntry, String)>)
    ensures
        match r {
            Some(p) => spec_parse_record(rem@) == Some((p.0@, p.1@)),
            None => spec_parse_record(rem@) is None,
        },
{
    let s0 = skip_ws_str(rem);
    let s0n = s0.as_str().unicode_len();
    if s0n == 0 || s0.as_str().get_char(0) != '{' {
        return None;
    }
    proof {
        assert(s0@.subrange(1, s0n as int) =~= s0@.skip(1));
    }
    let (n1, v1, r1) = match p_field(s0.as_str().substring_char(1, s0n)) {
        None => {
            return None;
        },
        Some(x) => x,
    };
    let r1b = skip_ws_str(r1.as_str());
    let r1bn = r1b.as_str().unicode_len();
    if r1bn == 0 || r1b.as_str().get_char(0) != ',' {
        return None;
    }
    proof {
        assert(r1b@.subrange(1, r1bn as int) =~= r1b@.skip(1));
    }
    let (n2, v2, r2) = match p_field(r1b.as_str().substring_char(1, r1bn)) {
        None => {
            return None;
        },
        Some(x) => x,
    };
    let r2b = skip_ws_str(r2.as_str());
    let r2bn = r2b.as_str().unicode_len();
    if r2bn == 0 || r2b.as_str().get_char(0) != ',' {
        return None;
    }
    proof {
        assert(r2b@.subrange(1, r2bn as int) =~= r2b@.skip(1));
    }
    let (n3, v3, r3) = match p_field(r2b.as_str().substring_char(1, r2bn)) {
        None => {
            return None;
        },
        Some(x) => x,
    };
    let r3b = skip_ws_str(r3.as_str());
    let r3bn = r3b.as_str().unicode_len();
    if r3bn == 0 || r3b.as_str().get_char(0) != '}' {
        return None;
    }
    let names_good = field_name_ok(n1.as_str()) && field_name_ok(n2.as_str()) && field_name_ok(
        n3.as_str(),
    ) && !crate::text::str_eq(n1.as_str(), n2.as_str()) && !crate::text::str_eq(
        n1.as_str(),
        n3.as_str(),
    ) && !crate::text::str_eq(n2.as_str(), n3.as_str());
    if !names_good {
        return None;
    }
    let image_file = pick3(&n1, &v1, &n2, &v2, &n3, &v3, "image_file");
    let image_mount_point = pick3(&n1, &v1, &n2, &v2, &n3, &v3, "image_mount_point");
    let dm_mount_point = pick3(&n1, &v1, &n2, &v2, &n3, &v3, "dm_mount_point");
    let entry = ConfigEntry { image_file, image_mount_point, dm_mount_point };
    proof {
        assert(r3b@.subrange(1, r3bn as int) =~= r3b@.skip(1));
        assert(entry@ == spec_assemble(n1@, v1@, n2@, v2@, n3@, v3@)->Some_0);
    }
    let rest = r3b.as_str().substring_char(1, r3bn).to_owned();
    Some((entry, rest))
}

/// Picks the value of the wanted field, mirroring `spec_field_pick`.
fn pick3(n1: &String, v1: &String, n2: &String, v2: &String, n3: &String, v3: &String, want: &str) -> (r:
    String)
    ensures
        r@ == spec_field_pick(n1@, v1@, n2@, v2@, n3@, v3@, want@),
{
    if crate::text::str_eq(n1.as_str(), want) {
        v1.clone()
    } else if crate::text::str_eq(n2.as_str(), want) {
        v2.clone()
    } else {
        v3.clone()
    }
}

/// Reads one member, mirroring `spec_parse_member`.
fn p_member(rem: &str) -> (r: Option<((u32, ConfigEntry), String)>)
    ensures
        match r {
            Some(p) => spec_parse_member(rem@) == Some((((p.0).0, (p.0).1@), p.1@)),
            None => spec_parse_member(rem@) is None,
        },
{
    let s0 = skip_ws_str(rem);
    let (key, r1) = match p_string(s0.as_str()) {
        None => {
            return None;
        },
        Some(x) => x,
    };
    let kn = key.as_str().unicode_len();
    if kn == 0 {
        return None;
    }
    let de = digits_end(key.as_str());
    if de != kn {
        proof {
            assert(spec_digit_val(key@[de as int]) >= 10);
            assert(!spec_all_digits(key@, 10));
        }
        return None;
    }
    if key.as_str().get_char(0) == '0' {
        return None;
    }
    proof {
        assert(spec_all_digits(key@, 10));
        // with no leading zero the value is at least the first digit
        assert(spec_digit_val(key@[0]) >= 1);
        let first = key@.subrange(0, 1);
        assert(first.drop_last() =~= Seq::<char>::empty());
        assert(first.last() == key@[0]);
        assert(spec_num_val(Seq::<char>::empty(), 10) == 0);
        assert(spec_num_val(first, 10) == spec_digit_val(key@[0]));
        crate::numbers::lemma_num_val_extends(key@, 10, 1);
    }
    let k = match parse_u32_dec(key.as_str()) {
        None => {
            return None;
        },
        Some(v) => v,
    };
    let r1b = skip_ws_str(r1.as_str());
    let r1bn = r1b.as_str().unicode_len();
    if r1bn == 0 || r1b.as_str().get_char(0) != ':' {
        return None;
    }
    proof {
        assert(r1b@.subrange(1, r1bn as int) =~= r1b@.skip(1));
    }
    match p_record(r1b.as_str().substring_char(1, r1bn)) {
        None => None,
        Some((entry, rest)) => Some(((k, entry), rest)),
    }
}

/// Reads the members of a non-empty registry object, mirroring
/// `spec_parse_members`.
fn p_members(rem: &str) -> (r: Option<(Vec<(u32, ConfigEntry)>, String)>)
    ensures
        match r {
            Some(p) => spec_parse_members(rem@) == Some(
                (p.0@.map_values(|q: (u32, ConfigEntry)| (q.0, q.1@)), p.1@),
            ),
            None => spec_parse_members(rem@) is None,
        },
    decreases rem@.len(),
{
    let (kv, rest) = match p_member(rem) {
        None => {
            return None;
        },
        Some(x) => x,
    };
    let rb = skip_ws_str(rest.as_str());
    let rbn = rb.as_str().unicode_len();
    if rbn == 0 {
        return None;
    }
    let c = rb.as_str().get_char(0);
    if c == '}' {
        let tail = rb.as_str().substring_char(1, rbn).to_owned();
        let mut v: Vec<(u32, ConfigEntry)> = Vec::new();
        let ghost kvm = (kv.0, kv.1@);
        v.push(kv);
        proof {
            assert(tail@ =~= rb@.skip(1));
            assert(v@.map_values(|q: (u32, ConfigEntry)| (q.0, q.1@)) =~= seq![kvm]);
        }
        return Some((v, tail));
    }
    if c == ',' {
        if rbn >= rem.unicode_len() {
            return None;
        }
        proof {
            assert(rb@.subrange(1, rbn as int) =~= rb@.skip(1));
        }
        let ghost kvm = (kv.0, kv.1@);
        return match p_members(rb.as_str().substring_char(1, rbn)) {
            None => None,
            Some((mut es, r2)) => {
                let ghost es0 = es@;
                es.insert(0, kv);
                proof {
                    assert(es@.map_values(|q: (u32, ConfigEntry)| (q.0, q.1@)) =~= seq![kvm]
                        + es0.map_values(|q: (u32, ConfigEntry)| (q.0, q.1@)));
                }
                Some((es, r2))
            },
        };
    }
    None
}

/// Whether the parsed members carry pairwise distinct slots.
fn keys_distinct_check(v: &Vec<(u32, ConfigEntry)>) -> (r: bool)
    ensures
        r == spec_keys_distinct(v@.map_values(|q: (u32, ConfigEntry)| (q.0, q.1@))),
{
    let ghost m = v@.map_values(|q: (u32, ConfigEntry)| (q.0, q.1@));
    let n = v.len();
    let mut i: usize = 0;
    while i < n
        invariant
            i <= n,
            n == v@.len(),
            m == v@.map_values(|q: (u32, ConfigEntry)| (q.0, q.1@)),
            forall|a: int, b: int| 0 <= a < b < n && a < i ==> (#[trigger] m[a]).0 != (
            #[trigger] m[b]).0,
        decreases n - i,
    {
        let mut j: usize = i + 1;
        while j < n
            invariant
                i < j <= n,
                i < n,
                n == v@.len(),
                m == v@.map_values(|q: (u32, ConfigEntry)| (q.0, q.1@)),
                forall|b: int| i < b < j ==> (#[trigger] m[b]).0 != m[i as int].0,
            decreases n - j,
        {
            if v[i].0 == v[j].0 {
                proof {
                    assert(m[i as int].0 == m[j as int].0);
                }
                return false;
            }
            j = j + 1;
        }
        i = i + 1;
    }
    true
}

impl Config {
    /// Reads a registry back from its persisted form: one JSON object of
    /// the registry schema, insignificant whitespace allowed, members in
    /// any order. Anything else — and any document whose slots collide,
    /// are zero, or are not written canonically — is refused, so a loaded
    /// registry always has unique, non-zero slots.
    pub fn from_json(s: &str) -> (r: Option<Config>)
        ensures
            match r {
                Some(c) => spec_parse_registry(s@) == Some(c@) && c.wf(),
                None => spec_parse_registry(s@) is None,
            },
    {
        let s0 = skip_ws_str(s);
        let s0n = s0.as_str().unicode_len();
        if s0n == 0 || s0.as_str().get_char(0) != '{' {
            return None;
        }
        proof {
            assert(s0@.subrange(1, s0n as int) =~= s0@.skip(1));
        }
        let after = s0.as_str().substring_char(1, s0n);
        let s1 = skip_ws_str(after);
        let s1n = s1.as_str().unicode_len();
        if s1n > 0 && s1.as_str().get_char(0) == '}' {
            proof {
                assert(s1@.subrange(1, s1n as int) =~= s1@.skip(1));
            }
            let tail = skip_ws_str(s1.as_str().substring_char(1, s1n));
            if tail.as_str().unicode_len() == 0 {
                return Some(Config::new());
            }
            return None;
        }
        match p_members(after) {
            None => None,
            Some((es, rest)) => {
                let rest_ws = skip_ws_str(rest.as_str());
                if rest_ws.as_str().unicode_len() != 0 {
                    return None;
                }
                if !keys_distinct_check(&es) {
                    return None;
                }
                let c = Config::from_entries(es);
                proof {
                    lemma_parse_registry_wf(s@);
                }
                Some(c)
            },
        }
    }
}

/// Decimal renderings are non-empty digit strings with no leading zero
/// (except for zero itself) and read back to their value.
proof fn lemma_dec_props(n: nat)
    ensures
        spec_dec(n).len() >= 1,
        crate::numbers::spec_all_digits(spec_dec(n), 10),
        spec_num_val(spec_dec(n), 10) == n,
        spec_dec(n)[0] == '0' <==> n == 0,
    decreases n,
{
    if n < 10 {
        let d = spec_dec(n);
        assert(d == seq![crate::numbers::spec_digit_char(n)]);
        assert(d.last() == crate::numbers::spec_digit_char(n));
        assert(d.drop_last() =~= Seq::<char>::empty());
        assert(spec_num_val(Seq::<char>::empty(), 10) == 0);
        assert(spec_num_val(d, 10) == spec_digit_val(crate::numbers::spec_digit_char(n)));
        assert(spec_digit_val(crate::numbers::spec_digit_char(n)) == n);
    } else {
        lemma_dec_props(n / 10);
        let a = spec_dec(n / 10);
        let d = spec_dec(n);
        assert(d.drop_last() =~= a);
        assert(d.last() == crate::numbers::spec_digit_char(n % 10));
        assert(spec_num_val(d, 10) == spec_num_val(a, 10) * 10 + (n % 10));
        assert(d[0] == a[0]);
    }
}

/// Hex digits read back to their value.
proof fn lemma_hex_roundtrip(v: nat)
    requires
        v < 16,
    ensures
        spec_digit_val(spec_hex_digit(v)) == v,
{
}

/// Reading an escaped string body consumes exactly the escape of the
/// original text and yields it back unchanged.
proof fn lemma_escape_roundtrip(x: Seq<char>, rest: Seq<char>)
    ensures
        spec_parse_str_body(spec_escape(x) + seq!['"'] + rest) == Some((x, rest)),
    decreases x.len(),
{
    let s = spec_escape(x) + seq!['"'] + rest;
    if x.len() == 0 {
        assert(s =~= seq!['"'] + rest);
        assert(s[0] == '"');
        assert(s.skip(1) =~= rest);
        assert(spec_parse_str_body(s) == Some((Seq::<char>::empty(), rest)));
        assert(x =~= Seq::<char>::empty());
    } else {
        let c = x[0];
        let tail = spec_escape(x.skip(1)) + seq!['"'] + rest;
        lemma_escape_roundtrip(x.skip(1), rest);
        assert(spec_escape(x) == spec_escape_char(c) + spec_escape(x.skip(1)));
        if c == '"' {
            assert(s =~= seq!['\\', '"'] + tail);
            assert(s[0] == '\\' && s[1] == '"');
            assert(s.skip(2) =~= tail);
            assert(seq![s[1]] + x.skip(1) =~= x);
        } else if c == '\\' {
            assert(s =~= seq!['\\', '\\'] + tail);
            assert(s[0] == '\\' && s[1] == '\\');
            assert(s.skip(2) =~= tail);
            assert(seq![s[1]] + x.skip(1) =~= x);
        } else if (c as u32) < 0x20 {
            let h1 = spec_hex_digit((c as u32 / 16) as nat);
            let h2 = spec_hex_digit((c as u32 % 16) as nat);
            assert(s =~= seq!['\\', 'u', '0', '0', h1, h2] + tail);
            assert(s[0] == '\\' && s[1] == 'u' && s[2] == '0' && s[3] == '0');
            lemma_hex_roundtrip((c as u32 / 16) as nat);
            lemma_hex_roundtrip((c as u32 % 16) as nat);
            assert(s[4] == h1 && s[5] == h2);
            assert(spec_digit_val(s[4]) < 16 && spec_digit_val(s[5]) < 16);
            let v = spec_digit_val(s[4]) * 16 + spec_digit_val(s[5]);
            assert(v == c as u32);
            assert(s.skip(6) =~= tail);
            assert(v < 256);
            vstd::utf8::char_u32_cast(c, v as u32);
            assert(spec_char_of(v as u32) == c);
            assert(seq![spec_char_of(v as u32)] + x.skip(1) =~= x);
        } else {
            assert(s =~= seq![c] + tail);
            assert(s[0] == c);
            assert(s.skip(1) =~= tail);
            assert(seq![s[0]] + x.skip(1) =~= x);
        }
    }
}

/// Reading a written JSON string yields the original text and the rest.
proof fn lemma_string_roundtrip(x: Seq<char>, rest: Seq<char>)
    ensures
        spec_parse_string(spec_json_string(x) + rest) == Some((x, rest)),
{
    let s = spec_json_string(x) + rest;
    assert(s[0] == '"');
    assert(s.skip(1) =~= spec_escape(x) + seq!['"'] + rest);
    lemma_escape_roundtrip(x, rest);
}

/// Skipping whitespace over text that starts with none changes nothing.
proof fn lemma_skip_ws_id(s: Seq<char>)
    requires
        s.len() == 0 || !spec_is_json_ws(s[0]),
    ensures
        spec_skip_ws(s) == s,
{
}

/// Reading a written field yields its name and value and the rest.
proof fn lemma_field_roundtrip(name: Seq<char>, value: Seq<char>, rest: Seq<char>)
    ensures
        spec_parse_field(spec_field_json(name, value) + rest) == Some((name, value, rest)),
{
    let s = spec_field_json(name, value) + rest;
    assert(s[0] == '"');
    lemma_skip_ws_id(s);
    assert(s =~= spec_json_string(name) + (seq![':'] + spec_json_string(value) + rest));
    lemma_string_roundtrip(name, seq![':'] + spec_json_string(value) + rest);
    let r1 = seq![':'] + spec_json_string(value) + rest;
    assert(r1[0] == ':');
    lemma_skip_ws_id(r1);
    assert(r1.skip(1) =~= spec_json_string(value) + rest);
    let r2 = spec_json_string(value) + rest;
    assert(r2[0] == '"');
    lemma_skip_ws_id(r2);
    lemma_string_roundtrip(value, rest);
}

/// The three field names are pairwise different and all valid.
proof fn lemma_field_names()
    ensures
        "image_file"@ != "image_mount_point"@,
        "image_file"@ != "dm_mount_point"@,
        "image_mount_point"@ != "dm_mount_point"@,
        spec_field_name_ok("image_file"@),
        spec_field_name_ok("image_mount_point"@),
        spec_field_name_ok("dm_mount_point"@),
{
    reveal_strlit("image_file");
    reveal_strlit("image_mount_point");
    reveal_strlit("dm_mount_point");
    assert("image_file"@.len() == 10);
    assert("image_mount_point"@.len() == 17);
    assert("dm_mount_point"@.len() == 14);
}

/// Reading a written record yields it back with the rest untouched.
#[verifier::rlimit(100)]
proof fn lemma_record_roundtrip(e: EntryModel, rest: Seq<char>)
    ensures
        spec_parse_record(spec_record_json(e) + rest) == Some((e, rest)),
{
    let s = spec_record_json(e) + rest;
    lemma_field_names();
    let f1 = spec_field_json("image_file"@, e.image_file);
    let f2 = spec_field_json("image_mount_point"@, e.image_mount_point);
    let f3 = spec_field_json("dm_mount_point"@, e.dm_mount_point);
    assert(s[0] == '{');
    lemma_skip_ws_id(s);
    assert(s.skip(1) =~= f1 + (seq![','] + f2 + seq![','] + f3 + seq!['}'] + rest));
    lemma_field_roundtrip("image_file"@, e.image_file, seq![','] + f2 + seq![','] + f3 + seq!['}']
        + rest);
    let r1 = seq![','] + f2 + seq![','] + f3 + seq!['}'] + rest;
    assert(r1[0] == ',');
    lemma_skip_ws_id(r1);
    assert(r1.skip(1) =~= f2 + (seq![','] + f3 + seq!['}'] + rest));
    lemma_field_roundtrip("image_mount_point"@, e.image_mount_point, seq![','] + f3 + seq!['}']
        + rest);
    let r2 = seq![','] + f3 + seq!['}'] + rest;
    assert(r2[0] == ',');
    lemma_skip_ws_id(r2);
    assert(r2.skip(1) =~= f3 + (seq!['}'] + rest));
    lemma_field_roundtrip("dm_mount_point"@, e.dm_mount_point, seq!['}'] + rest);
    let r3 = seq!['}'] + rest;
    assert(r3[0] == '}');
    lemma_skip_ws_id(r3);
    assert(r3.skip(1) =~= rest);
    let assembled = spec_assemble(
        "image_file"@,
        e.image_file,
        "image_mount_point"@,
        e.image_mount_point,
        "dm_mount_point"@,
        e.dm_mount_point,
    );
    assert(assembled == Some(e));
}

/// Reading a written member yields it back.
proof fn lemma_member_roundtrip(k: u32, e: EntryModel, rest: Seq<char>)
    requires
        k >= 1,
    ensures
        spec_parse_member(spec_entry_json(k, e) + rest) == Some(((k, e), rest)),
{
    let s = spec_entry_json(k, e) + rest;
    lemma_dec_props(k as nat);
    assert(s[0] == '"');
    lemma_skip_ws_id(s);
    assert(s =~= spec_json_string(spec_dec(k as nat)) + (seq![':'] + spec_record_json(e) + rest));
    lemma_string_roundtrip(spec_dec(k as nat), seq![':'] + spec_record_json(e) + rest);
    assert(spec_key_val(spec_dec(k as nat)) == Some(k));
    let r1 = seq![':'] + spec_record_json(e) + rest;
    assert(r1[0] == ':');
    lemma_skip_ws_id(r1);
    assert(r1.skip(1) =~= spec_record_json(e) + rest);
    lemma_record_roundtrip(e, rest);
}

/// Reading written members yields them back, up to the closing brace.
#[verifier::rlimit(100)]
proof fn lemma_members_roundtrip(m: Seq<(u32, EntryModel)>, rest: Seq<char>)
    requires
        m.len() >= 1,
        forall|i: int| 0 <= i < m.len() ==> (#[trigger] m[i]).0 >= 1,
    ensures
        spec_parse_members(spec_entries_json(m) + seq!['}'] + rest) == Some((m, rest)),
    decreases m.len(),
{
    reveal_strlit(",");
    let s = spec_entries_json(m) + seq!['}'] + rest;
    let k = m[0].0;
    let e = m[0].1;
    if m.len() == 1 {
        assert(s =~= spec_entry_json(k, e) + (seq!['}'] + rest));
        lemma_member_roundtrip(k, e, seq!['}'] + rest);
        let r = seq!['}'] + rest;
        assert(r[0] == '}');
        lemma_skip_ws_id(r);
        assert(r.skip(1) =~= rest);
        assert(seq![(k, e)] =~= m);
    } else {
        let more = spec_entries_json(m.skip(1)) + seq!['}'] + rest;
        assert(s =~= spec_entry_json(k, e) + (seq![','] + more));
        lemma_member_roundtrip(k, e, seq![','] + more);
        let r = seq![','] + more;
        assert(r[0] == ',');
        assert(r[0] != '}');
        lemma_skip_ws_id(r);
        assert(spec_entry_json(k, e).len() >= 1);
        assert(r.len() < s.len());
        assert(r.skip(1) =~= more);
        assert forall|i: int| 0 <= i < m.skip(1).len() implies (#[trigger] m.skip(1)[i]).0
            >= 1 by {
            assert(m.skip(1)[i] == m[i + 1]);
        }
        lemma_members_roundtrip(m.skip(1), rest);
        assert(seq![(k, e)] + m.skip(1) =~= m);
    }
}

/// Reading a written registry document yields exactly the registry it
/// was written from.
pub proof fn lemma_registry_roundtrip(m: Seq<(u32, EntryModel)>)
    requires
        wf_model(m),
    ensures
        spec_parse_registry(spec_registry_json(m)) == Some(m),
{
    let s = spec_registry_json(m);
    reveal_strlit("{");
    reveal_strlit("}");
    assert(s[0] == '{');
    lemma_skip_ws_id(s);
    if m.len() == 0 {
        assert(s =~= seq!['{', '}']);
        assert(s.skip(1) =~= seq!['}']);
        lemma_skip_ws_id(seq!['}']);
        assert(seq!['}'].skip(1) =~= Seq::<char>::empty());
        lemma_skip_ws_id(Seq::<char>::empty());
        assert(spec_parse_registry(s) == Some(Seq::<(u32, EntryModel)>::empty()));
        assert(m =~= Seq::<(u32, EntryModel)>::empty());
    } else {
        let ej = spec_entries_json(m);
        assert(ej[0] == '"') by {
            lemma_dec_props(m[0].0 as nat);
        }
        assert(s.skip(1) =~= ej + seq!['}'] + Seq::<char>::empty());
        lemma_skip_ws_id(s.skip(1));
        assert(spec_skip_ws(s.skip(1))[0] == '"');
        assert forall|i: int| 0 <= i < m.len() implies (#[trigger] m[i]).0 >= 1 by {
            assert(m[i].0 != 0);
        }
        lemma_members_roundtrip(m, Seq::empty());
        assert(spec_parse_members(s.skip(1)) == Some((m, Seq::<char>::empty())));
        lemma_skip_ws_id(Seq::<char>::empty());
    }
}

/// Idempotent persistence: a saved registry, loaded and saved again with
/// no mutation in between, produces byte-identical text — the document
/// reads back to exactly the sorted registry it was written from, and
/// writing that registry again yields the same document.
pub proof fn lemma_idempotent_persistence(m: Seq<(u32, EntryModel)>)
    requires
        wf_model(m),
    ensures
        spec_parse_registry(spec_registry_json(spec_sort(m))) == Some(spec_sort(m)),
        spec_registry_json(spec_sort(spec_sort(m))) == spec_registry_json(spec_sort(m)),
{
    lemma_sort_sorted(m);
    lemma_registry_roundtrip(spec_sort(m));
    lemma_sort_of_sorted(spec_sort(m));
}

/// Sorting text that is already in order changes nothing.
pub proof fn lemma_sort_of_sorted(m: Seq<(u32, EntryModel)>)
    requires
        spec_sorted(m),
    ensures
        spec_sort(m) == m,
    decreases m.len(),
{
    if m.len() > 0 {
        let tail = m.skip(1);
        assert(spec_sorted(tail)) by {
            assert(forall|i: int, j: int|
                0 <= i < j < tail.len() ==> (#[trigger] tail[i]).0 < (#[trigger] tail[j]).0);
        }
        lemma_sort_of_sorted(tail);
        if tail.len() == 0 {
            assert(spec_sort(m) =~= m);
        } else {
            assert(m[0].0 < tail[0].0) by {
                assert(tail[0] == m[1]);
            }
            assert(spec_insert_sorted(m[0], tail) == seq![m[0]] + tail);
            assert(seq![m[0]] + tail =~= m);
        }
    }
}

} // verus!
