//! The override store: a durable mapping from filesystem paths (or the
//! reserved `default` key) to targets. The store serializes to a single
//! key/value table document, is rewritten whole through the atomic
//! stage-then-commit protocol modeled below, and answers the
//! upward-search resolution query.
use vstd::prelude::*;

use crate::local::LocalError;
use crate::target::{
    spec_target_chars, spec_target_parts, spec_version_parts, OperatingSystem, Target, Version,
    VersionError,
};
use crate::text::{push_char, str_eq};

verus! {

/// A failure of the override store.
#[derive(Debug, Clone)]
pub enum ConfigError {
    /// A required local directory could not be determined.
    Local { source: LocalError },
    /// A filesystem operation on the named path failed.
    IO { path: String, message: String },
    /// The configuration document exists but does not parse; never
    /// repaired silently.
    Corruption { detail: String },
    /// A version-pin marker file at the named directory does not hold a
    /// parseable version.
    ParseError { path: String, source: VersionError },
}

/// The mapping an association list denotes; later entries win.
pub open spec fn assoc_map<V>(s: Seq<(String, V)>) -> Map<Seq<char>, V>
    decreases s.len(),
{
    if s.len() == 0 {
        Map::empty()
    } else {
        assoc_map(s.drop_last()).insert(s.last().0@, s.last().1)
    }
}

/// No two entries share a key.
pub open spec fn keys_unique<V>(s: Seq<(String, V)>) -> bool {
    forall|i: int, j: int| 0 <= i < j < s.len() ==> s[i].0@ != s[j].0@
}

/// A key is in the denoted mapping exactly when some entry holds it.
pub proof fn lemma_assoc_map_dom<V>(s: Seq<(String, V)>, k: Seq<char>)
    ensures
        assoc_map(s).contains_key(k) <==> (exists|i: int| 0 <= i < s.len() && s[i].0@ == k),
    decreases s.len(),
{
    if s.len() > 0 {
        lemma_assoc_map_dom(s.drop_last(), k);
        if assoc_map(s).contains_key(k) {
            if s.last().0@ != k {
                let i = choose|i: int| 0 <= i < s.len() - 1 && s.drop_last()[i].0@ == k;
                assert(s[i].0@ == k);
            }
        }
        if exists|i: int| 0 <= i < s.len() && s[i].0@ == k {
            let i = choose|i: int| 0 <= i < s.len() && s[i].0@ == k;
            if i < s.len() - 1 {
                assert(s.drop_last()[i].0@ == k);
            }
        }
    }
}

/// Under unique keys, the entry holding a key gives its mapped value.
pub proof fn lemma_assoc_map_index<V>(s: Seq<(String, V)>, i: int)
    requires
        keys_unique(s),
        0 <= i < s.len(),
    ensures
        assoc_map(s).contains_key(s[i].0@),
        assoc_map(s)[s[i].0@] == s[i].1,
    decreases s.len(),
{
    if i == s.len() - 1 {
    } else {
        assert(keys_unique(s.drop_last())) by {
            assert(forall|p: int, q: int|
                0 <= p < q < s.len() - 1 ==> s.drop_last()[p].0@ == s[p].0@ && s.drop_last()[q].0@
                    == s[q].0@);
        }
        assert(s.drop_last()[i] == s[i]);
        lemma_assoc_map_index(s.drop_last(), i);
        assert(s[i].0@ != s.last().0@);
    }
}

/// Replacing the entry at `i` by one with the same key updates the
/// denoted mapping at that key.
proof fn lemma_assoc_map_update<V>(s: Seq<(String, V)>, i: int, p: (String, V))
    requires
        keys_unique(s),
        0 <= i < s.len(),
        p.0@ == s[i].0@,
    ensures
        assoc_map(s.update(i, p)) == assoc_map(s).insert(p.0@, p.1),
        keys_unique(s.update(i, p)),
    decreases s.len(),
{
    let t = s.update(i, p);
    assert(forall|j: int| 0 <= j < s.len() && j != i ==> t[j] == s[j]);
    if i == s.len() - 1 {
        assert(t.drop_last() =~= s.drop_last());
        assert(assoc_map(t) == assoc_map(s.drop_last()).insert(p.0@, p.1));
        assert(assoc_map(s).insert(p.0@, p.1) =~= assoc_map(s.drop_last()).insert(p.0@, p.1));
    } else {
        assert(keys_unique(s.drop_last())) by {
            assert(forall|a: int, b: int|
                0 <= a < b < s.len() - 1 ==> s.drop_last()[a].0@ == s[a].0@ && s.drop_last()[b].0@
                    == s[b].0@);
        }
        assert(t.drop_last() =~= s.drop_last().update(i, p));
        lemma_assoc_map_update(s.drop_last(), i, p);
        assert(t.last() == s.last());
        assert(s.last().0@ != p.0@);
        assert(assoc_map(t) == assoc_map(s.drop_last()).insert(p.0@, p.1).insert(
            s.last().0@,
            s.last().1,
        ));
        assert(assoc_map(s).insert(p.0@, p.1) =~= assoc_map(s.drop_last()).insert(
            p.0@,
            p.1,
        ).insert(s.last().0@, s.last().1));
    }
}

/// Removing the entry at `i` removes its key from the denoted mapping.
proof fn lemma_assoc_map_remove<V>(s: Seq<(String, V)>, i: int)
    requires
        keys_unique(s),
        0 <= i < s.len(),
    ensures
        assoc_map(s.remove(i)) == assoc_map(s).remove(s[i].0@),
        keys_unique(s.remove(i)),
    decreases s.len(),
{
    let t = s.remove(i);
    assert(keys_unique(s.drop_last())) by {
        assert(forall|a: int, b: int|
            0 <= a < b < s.len() - 1 ==> s.drop_last()[a].0@ == s[a].0@ && s.drop_last()[b].0@
                == s[b].0@);
    }
    if i == s.len() - 1 {
        assert(t =~= s.drop_last());
        lemma_assoc_map_dom(s.drop_last(), s[i].0@);
        assert(forall|j: int| 0 <= j < s.len() - 1 ==> s.drop_last()[j].0@ == s[j].0@);
        assert(!assoc_map(s.drop_last()).contains_key(s[i].0@));
        assert(assoc_map(s).remove(s[i].0@) =~= assoc_map(s.drop_last()));
    } else {
        assert(t.drop_last() =~= s.drop_last().remove(i));
        lemma_assoc_map_remove(s.drop_last(), i);
        assert(t.last() == s.last());
        assert(s.drop_last()[i] == s[i]);
        assert(s.last().0@ != s[i].0@);
        assert(assoc_map(t) == assoc_map(s.drop_last()).remove(s[i].0@).insert(
            s.last().0@,
            s.last().1,
        ));
        assert(assoc_map(s).remove(s[i].0@) =~= assoc_map(s.drop_last()).remove(s[i].0@).insert(
            s.last().0@,
            s.last().1,
        ));
    }
}

/// First line of the configuration document.
pub open spec fn header_chars() -> Seq<char> {
    "[version_mappings]"@ + seq!['\n']
}

/// A key character as written in the document: backslash, double quote
/// and newline are written as two-character escapes, all else verbatim.
pub open spec fn esc_char(c: char) -> Seq<char> {
    if c == '\\' {
        seq!['\\', '\\']
    } else if c == '"' {
        seq!['\\', '"']
    } else if c == '\n' {
        seq!['\\', 'n']
    } else {
        seq![c]
    }
}

/// A key as written in the document.
pub open spec fn esc(s: Seq<char>) -> Seq<char>
    decreases s.len(),
{
    if s.len() == 0 {
        Seq::empty()
    } else {
        esc_char(s[0]) + esc(s.skip(1))
    }
}

/// One line of the document: the quoted, escaped key, ` = `, and the
/// quoted canonical target text.
pub open spec fn entry_line(key: Seq<char>, t: Target) -> Seq<char> {
    seq!['"'] + esc(key) + seq!['"', ' ', '=', ' ', '"'] + spec_target_chars(t) + seq!['"', '\n']
}

/// The entry lines of the document, in entry order.
pub open spec fn lines_chars(entries: Seq<(String, Target)>) -> Seq<char>
    decreases entries.len(),
{
    if entries.len() == 0 {
        Seq::empty()
    } else {
        entry_line(entries[0].0@, entries[0].1) + lines_chars(entries.skip(1))
    }
}

/// The whole document: the header line, then one line per entry.
pub open spec fn spec_document(entries: Seq<(String, Target)>) -> Seq<char> {
    header_chars() + lines_chars(entries)
}

/// Escaping one more character appends its written form.
proof fn lemma_esc_snoc(s: Seq<char>, c: char)
    ensures
        esc(s.push(c)) == esc(s) + esc_char(c),
    decreases s.len(),
{
    if s.len() == 0 {
        assert(s.push(c)[0] == c);
        assert(s.push(c).skip(1) =~= Seq::<char>::empty());
        assert(esc(Seq::<char>::empty()) =~= Seq::<char>::empty());
        assert(esc(s.push(c)) =~= esc(s) + esc_char(c));
    } else {
        assert(s.push(c)[0] == s[0]);
        assert(s.push(c).skip(1) =~= s.skip(1).push(c));
        lemma_esc_snoc(s.skip(1), c);
        assert(esc(s.push(c)) == esc_char(s[0]) + esc(s.skip(1).push(c)));
        assert(esc(s) == esc_char(s[0]) + esc(s.skip(1)));
        assert(esc_char(s[0]) + (esc(s.skip(1)) + esc_char(c)) =~= (esc_char(s[0]) + esc(
            s.skip(1),
        )) + esc_char(c));
    }
}

/// One more entry appends its line.
proof fn lemma_lines_snoc(entries: Seq<(String, Target)>, e: (String, Target))
    ensures
        lines_chars(entries.push(e)) == lines_chars(entries) + entry_line(e.0@, e.1),
    decreases entries.len(),
{
    if entries.len() == 0 {
        assert(entries.push(e)[0] == e);
        assert(entries.push(e).skip(1) =~= Seq::<(String, Target)>::empty());
        assert(lines_chars(Seq::<(String, Target)>::empty()) =~= Seq::<char>::empty());
        assert(lines_chars(entries.push(e)) =~= lines_chars(entries) + entry_line(e.0@, e.1));
    } else {
        let e0 = entries[0];
        assert(entries.push(e)[0] == e0);
        assert(entries.push(e).skip(1) =~= entries.skip(1).push(e));
        lemma_lines_snoc(entries.skip(1), e);
        assert(lines_chars(entries.push(e)) == entry_line(e0.0@, e0.1) + lines_chars(
            entries.skip(1).push(e),
        ));
        assert(lines_chars(entries) == entry_line(e0.0@, e0.1) + lines_chars(entries.skip(1)));
        assert(entry_line(e0.0@, e0.1) + (lines_chars(entries.skip(1)) + entry_line(e.0@, e.1))
            =~= (entry_line(e0.0@, e0.1) + lines_chars(entries.skip(1))) + entry_line(e.0@, e.1));
    }
}

/// Reads an escaped key from position `i` up to its closing quote:
/// the key read back, and the position just past the quote. `None`
/// where the input ends before a closing quote or an escape is invalid.
pub open spec fn key_scan(s: Seq<char>, i: int) -> Option<(Seq<char>, int)>
    decreases s.len() - i,
{
    if i < 0 || i >= s.len() {
        None
    } else if s[i] == '"' {
        Some((Seq::empty(), i + 1))
    } else if s[i] == '\\' {
        if i + 1 >= s.len() {
            None
        } else {
            let d = if s[i + 1] == '\\' {
                Some('\\')
            } else if s[i + 1] == '"' {
                Some('"')
            } else if s[i + 1] == 'n' {
                Some('\n')
            } else {
                None
            };
            match d {
                None => None,
                Some(c) => match key_scan(s, i + 2) {
                    None => None,
                    Some((k, e)) => Some((seq![c] + k, e)),
                },
            }
        }
    } else {
        match key_scan(s, i + 1) {
            None => None,
            Some((k, e)) => Some((seq![s[i]] + k, e)),
        }
    }
}

/// Reads a raw value from position `i` up to its closing quote.
pub open spec fn value_scan(s: Seq<char>, i: int) -> Option<(Seq<char>, int)>
    decreases s.len() - i,
{
    if i < 0 || i >= s.len() {
        None
    } else if s[i] == '"' {
        Some((Seq::empty(), i + 1))
    } else {
        match value_scan(s, i + 1) {
            None => None,
            Some((v, e)) => Some((seq![s[i]] + v, e)),
        }
    }
}

/// Reads one entry line from position `i`: quoted key, ` = `, quoted
/// target text, newline. The value text must parse as a target.
pub open spec fn entry_scan(s: Seq<char>, i: int) -> Option<(Seq<char>, Target, int)> {
    if i < 0 || i >= s.len() || s[i] != '"' {
        None
    } else {
        match key_scan(s, i + 1) {
            None => None,
            Some((key, e1)) => {
                if e1 + 4 > s.len() {
                    None
                } else if !(s[e1] == ' ' && s[e1 + 1] == '=' && s[e1 + 2] == ' ' && s[e1 + 3]
                    == '"') {
                    None
                } else {
                    match value_scan(s, e1 + 4) {
                        None => None,
                        Some((vtext, e2)) => {
                            if e2 >= s.len() || s[e2] != '\n' {
                                None
                            } else {
                                match spec_target_parts(vtext) {
                                    None => None,
                                    Some(t) => Some((key, t, e2 + 1)),
                                }
                            }
                        },
                    }
                }
            },
        }
    }
}

/// Reads entry lines from position `i` to the end of the document,
/// extending `acc`; a key seen twice is a fault. The bounds test on the
/// scanned end is never taken and only keeps the recursion well-founded.
pub open spec fn entries_scan(s: Seq<char>, i: int, acc: Map<Seq<char>, Target>) -> Option<
    Map<Seq<char>, Target>,
>
    decreases s.len() - i,
{
    if i == s.len() {
        Some(acc)
    } else {
        match entry_scan(s, i) {
            None => None,
            Some((key, t, e)) => {
                if acc.contains_key(key) {
                    None
                } else if e <= i || e > s.len() {
                    None
                } else {
                    entries_scan(s, e, acc.insert(key, t))
                }
            },
        }
    }
}

/// The mapping a document denotes, or `None` where the document is
/// corrupt. Missing content — the empty document — denotes the empty
/// mapping; otherwise the header line must come first, followed by one
/// line per entry.
pub open spec fn spec_parse_doc(s: Seq<char>) -> Option<Map<Seq<char>, Target>> {
    if s.len() == 0 {
        Some(Map::empty())
    } else if s.len() < header_chars().len() || s.take(header_chars().len() as int)
        != header_chars() {
        None
    } else {
        entries_scan(s, header_chars().len() as int, Map::empty())
    }
}

/// A successful key scan ends past where it began, within the input.
proof fn lemma_key_scan_bounds(s: Seq<char>, i: int)
    ensures
        key_scan(s, i) matches Some(p) ==> i < p.1 <= s.len(),
    decreases s.len() - i,
{
    if 0 <= i < s.len() {
        lemma_key_scan_bounds(s, i + 1);
        if i + 1 < s.len() {
            lemma_key_scan_bounds(s, i + 2);
        }
    }
}

/// A successful value scan ends past where it began, within the input.
proof fn lemma_value_scan_bounds(s: Seq<char>, i: int)
    ensures
        value_scan(s, i) matches Some(p) ==> i < p.1 <= s.len(),
    decreases s.len() - i,
{
    if 0 <= i < s.len() {
        lemma_value_scan_bounds(s, i + 1);
    }
}

/// The mapping after inserting a run of entries in order.
pub open spec fn extended(acc: Map<Seq<char>, Target>, entries: Seq<(String, Target)>) -> Map<
    Seq<char>,
    Target,
>
    decreases entries.len(),
{
    if entries.len() == 0 {
        acc
    } else {
        extended(acc.insert(entries[0].0@, entries[0].1), entries.skip(1))
    }
}

/// Inserting one more entry at the end extends the mapping at its key.
proof fn lemma_extended_snoc(
    acc: Map<Seq<char>, Target>,
    entries: Seq<(String, Target)>,
    e: (String, Target),
)
    ensures
        extended(acc, entries.push(e)) == extended(acc, entries).insert(e.0@, e.1),
    decreases entries.len(),
{
    if entries.len() == 0 {
        assert(entries.push(e)[0] == e);
        assert(entries.push(e).skip(1) =~= Seq::<(String, Target)>::empty());
        assert(extended(acc.insert(e.0@, e.1), Seq::<(String, Target)>::empty()) == acc.insert(
            e.0@,
            e.1,
        ));
    } else {
        assert(entries.push(e)[0] == entries[0]);
        assert(entries.push(e).skip(1) =~= entries.skip(1).push(e));
        lemma_extended_snoc(acc.insert(entries[0].0@, entries[0].1), entries.skip(1), e);
    }
}

/// Inserting the entries in order into the empty mapping gives the
/// mapping the entry list denotes.
proof fn lemma_extended_is_assoc_map(entries: Seq<(String, Target)>)
    ensures
        extended(Map::empty(), entries) == assoc_map(entries),
    decreases entries.len(),
{
    if entries.len() > 0 {
        lemma_extended_is_assoc_map(entries.drop_last());
        lemma_extended_snoc(Map::empty(), entries.drop_last(), entries.last());
        assert(entries.drop_last().push(entries.last()) =~= entries);
    }
}

/// An escaped key followed by its closing quote scans back to the key.
proof fn lemma_key_scan_escaped(s: Seq<char>, i: int, key: Seq<char>)
    requires
        0 <= i,
        i + esc(key).len() + 1 <= s.len(),
        s.subrange(i, i + esc(key).len()) == esc(key),
        s[i + esc(key).len()] == '"',
    ensures
        key_scan(s, i) == Some((key, i + esc(key).len() + 1)),
    decreases key.len(),
{
    if key.len() == 0 {
        assert(s[i] == '"');
    } else {
        let c = key[0];
        let rest = key.skip(1);
        let ec = esc_char(c);
        assert(esc(key) == ec + esc(rest));
        assert(forall|k: int|
            0 <= k < esc(key).len() ==> s[i + k] == esc(key)[k]) by {
            assert(forall|k: int|
                0 <= k < esc(key).len() ==> #[trigger] s.subrange(i, i + esc(key).len())[k] == s[
                    i + k]);
        }
        let inext = i + ec.len();
        assert(s.subrange(inext, inext + esc(rest).len()) =~= esc(rest)) by {
            assert(forall|k: int|
                0 <= k < esc(rest).len() ==> #[trigger] s.subrange(
                    inext,
                    inext + esc(rest).len(),
                )[k] == s[inext + k] && esc(key)[ec.len() + k] == esc(rest)[k]);
        }
        assert(s[inext + esc(rest).len()] == '"');
        lemma_key_scan_escaped(s, inext, rest);
        if c == '\\' || c == '"' || c == '\n' {
            assert(ec.len() == 2);
            assert(esc(key)[0] == '\\' && esc(key)[1] == ec[1]);
            assert(s[i + 0] == esc(key)[0] && s[i + 1] == esc(key)[1]);
            assert(s[i] == '\\' && s[i + 1] == ec[1]);
            assert(key_scan(s, i) == Some((seq![c] + rest, i + esc(key).len() + 1)));
        } else {
            assert(ec.len() == 1);
            assert(esc(key)[0] == c);
            assert(s[i + 0] == esc(key)[0]);
            assert(s[i] == c);
            assert(key_scan(s, i) == Some((seq![c] + rest, i + esc(key).len() + 1)));
        }
        assert(seq![c] + rest =~= key);
    }
}

/// A quote-free value followed by its closing quote scans back to the
/// value.
proof fn lemma_value_scan_plain(s: Seq<char>, i: int, v: Seq<char>)
    requires
        0 <= i,
        i + v.len() + 1 <= s.len(),
        s.subrange(i, i + v.len()) == v,
        forall|k: int| 0 <= k < v.len() ==> v[k] != '"',
        s[i + v.len()] == '"',
    ensures
        value_scan(s, i) == Some((v, i + v.len() + 1)),
    decreases v.len(),
{
    if v.len() == 0 {
        assert(s[i] == '"');
    } else {
        assert(forall|k: int|
            0 <= k < v.len() ==> #[trigger] s.subrange(i, i + v.len())[k] == s[i + k]);
        assert(s[i] == v[0]);
        let rest = v.skip(1);
        assert(s.subrange(i + 1, i + 1 + rest.len()) =~= rest) by {
            assert(forall|k: int|
                0 <= k < rest.len() ==> #[trigger] s.subrange(i + 1, i + 1 + rest.len())[k] == s[
                    i + 1 + k] && v[1 + k] == rest[k]);
        }
        lemma_value_scan_plain(s, i + 1, rest);
        assert(seq![v[0]] + rest =~= v);
    }
}

/// An entry line scans back to its key and target.
proof fn lemma_entry_scan_line(s: Seq<char>, i: int, key: Seq<char>, t: Target)
    requires
        0 <= i,
        i + entry_line(key, t).len() <= s.len(),
        s.subrange(i, i + entry_line(key, t).len()) == entry_line(key, t),
    ensures
        entry_scan(s, i) == Some((key, t, i + entry_line(key, t).len())),
{
    let line = entry_line(key, t);
    let ek = esc(key);
    let tc = spec_target_chars(t);
    let e0 = ek.len() as int;
    let tl = tc.len() as int;
    assert(line.len() == 8 + e0 + tl);
    assert(forall|k: int| 0 <= k < line.len() ==> s[i + k] == line[k]) by {
        assert(forall|k: int|
            0 <= k < line.len() ==> #[trigger] s.subrange(i, i + line.len())[k] == s[i + k]);
    }
    assert forall|k: int| 0 <= k < line.len() implies line[k] == spec_line_char(
        key,
        t,
        k,
    ) by {
        lemma_entry_line_char(key, t, k);
    }

    assert(spec_line_char(key, t, 0) == '"' && line[0] == spec_line_char(key, t, 0) && s[i + 0]
        == line[0]);
    assert(s[i] == '"');
    assert(s.subrange(i + 1, i + 1 + e0) =~= ek) by {
        assert(forall|k: int|
            0 <= k < e0 ==> #[trigger] s.subrange(i + 1, i + 1 + e0)[k] == s[i + 1 + k] && line[
                1 + k] == ek[k]);
    }
    assert(spec_line_char(key, t, 1 + e0) == '"' && line[1 + e0] == spec_line_char(
        key,
        t,
        1 + e0,
    ) && s[i + (1 + e0)] == line[1 + e0]);
    assert(s[i + 1 + e0] == '"');
    lemma_key_scan_escaped(s, i + 1, key);
    let e1 = i + 2 + e0;
    assert(key_scan(s, i + 1) == Some((key, e1)));
    assert(spec_line_char(key, t, 2 + e0) == ' ' && line[2 + e0] == spec_line_char(key, t, 2 + e0)
        && s[i + (2 + e0)] == line[2 + e0]);
    assert(spec_line_char(key, t, 3 + e0) == '=' && line[3 + e0] == spec_line_char(key, t, 3 + e0)
        && s[i + (3 + e0)] == line[3 + e0]);
    assert(spec_line_char(key, t, 4 + e0) == ' ' && line[4 + e0] == spec_line_char(key, t, 4 + e0)
        && s[i + (4 + e0)] == line[4 + e0]);
    assert(spec_line_char(key, t, 5 + e0) == '"' && line[5 + e0] == spec_line_char(key, t, 5 + e0)
        && s[i + (5 + e0)] == line[5 + e0]);
    assert(s[e1] == ' ' && s[e1 + 1] == '=' && s[e1 + 2] == ' ' && s[e1 + 3] == '"');
    let vstart = e1 + 4;
    assert(s.subrange(vstart, vstart + tl) =~= tc) by {
        assert(forall|k: int|
            0 <= k < tl ==> #[trigger] s.subrange(vstart, vstart + tl)[k] == s[vstart + k]
                && line[6 + e0 + k] == tc[k]);
    }
    assert(forall|k: int| 0 <= k < tl ==> tc[k] != '"') by {
        crate::target::lemma_target_chars_no_char(t, '"');
    }
    assert(spec_line_char(key, t, 6 + e0 + tl) == '"' && line[6 + e0 + tl] == spec_line_char(
        key,
        t,
        6 + e0 + tl,
    ) && s[i + (6 + e0 + tl)] == line[6 + e0 + tl]);
    assert(s[vstart + tl] == '"');
    lemma_value_scan_plain(s, vstart, tc);
    let e2 = vstart + tl + 1;
    assert(value_scan(s, vstart) == Some((tc, e2)));
    assert(spec_line_char(key, t, 7 + e0 + tl) == '\n' && line[7 + e0 + tl] == spec_line_char(
        key,
        t,
        7 + e0 + tl,
    ) && s[i + (7 + e0 + tl)] == line[7 + e0 + tl]);
    assert(s[e2] == '\n');
    assert(spec_target_parts(tc) == Some(t)) by {
        crate::target::lemma_target_round_trip(t);
    }
    assert(e2 + 1 == i + line.len());
}

/// The character at one position of an entry line.
spec fn spec_line_char(key: Seq<char>, t: Target, k: int) -> char {
    let e0 = esc(key).len();
    let tl = spec_target_chars(t).len();
    if k == 0 {
        '"'
    } else if k < 1 + e0 {
        esc(key)[k - 1]
    } else if k == 1 + e0 {
        '"'
    } else if k == 2 + e0 {
        ' '
    } else if k == 3 + e0 {
        '='
    } else if k == 4 + e0 {
        ' '
    } else if k == 5 + e0 {
        '"'
    } else if k < 6 + e0 + tl {
        spec_target_chars(t)[k - 6 - e0]
    } else if k == 6 + e0 + tl {
        '"'
    } else {
        '\n'
    }
}

/// Spells out the concatenation that forms an entry line.
proof fn lemma_entry_line_char(key: Seq<char>, t: Target, k: int)
    requires
        0 <= k < entry_line(key, t).len(),
    ensures
        entry_line(key, t)[k] == spec_line_char(key, t, k),
{
}

/// A run of entry lines that fills the rest of the document scans back
/// to exactly those entries.
proof fn lemma_entries_scan_lines(
    s: Seq<char>,
    i: int,
    entries: Seq<(String, Target)>,
    acc: Map<Seq<char>, Target>,
)
    requires
        0 <= i <= s.len(),
        s.subrange(i, s.len() as int) == lines_chars(entries),
        keys_unique(entries),
        forall|j: int| 0 <= j < entries.len() ==> !acc.contains_key(#[trigger] entries[j].0@),
    ensures
        entries_scan(s, i, acc) == Some(extended(acc, entries)),
    decreases entries.len(),
{
    if entries.len() == 0 {
        assert(i == s.len());
    } else {
        let e = entries[0];
        let line = entry_line(e.0@, e.1);
        let rest = entries.skip(1);
        assert(lines_chars(entries) == line + lines_chars(rest));
        assert(forall|k: int|
            0 <= k < s.len() - i ==> s[i + k] == lines_chars(entries)[k]) by {
            assert(forall|k: int|
                0 <= k < s.len() - i ==> #[trigger] s.subrange(i, s.len() as int)[k] == s[i
                    + k]);
        }
        assert(i + line.len() <= s.len());
        assert(s.subrange(i, i + line.len()) =~= line) by {
            assert(forall|k: int|
                0 <= k < line.len() ==> #[trigger] s.subrange(i, i + line.len())[k] == s[i + k]
                    && lines_chars(entries)[k] == line[k]);
        }
        lemma_entry_scan_line(s, i, e.0@, e.1);
        let inext = i + line.len();
        assert(!acc.contains_key(e.0@));
        assert(line.len() > 0);
        assert(s.subrange(inext, s.len() as int) =~= lines_chars(rest)) by {
            assert(forall|k: int|
                0 <= k < s.len() - inext ==> #[trigger] s.subrange(inext, s.len() as int)[k] == s[
                    inext + k] && lines_chars(entries)[line.len() + k] == lines_chars(rest)[k]);
        }
        assert(keys_unique(rest)) by {
            assert(forall|a: int, b: int|
                0 <= a < b < rest.len() ==> (#[trigger] rest[a]).0@ == entries[a + 1].0@ && (
                #[trigger] rest[b]).0@ == entries[b + 1].0@);
        }
        assert forall|j: int|
            0 <= j < rest.len() implies !acc.insert(e.0@, e.1).contains_key(
            #[trigger] rest[j].0@,
        ) by {
            assert(rest[j].0@ == entries[j + 1].0@);
            assert(entries[j + 1].0@ != entries[0].0@);
            assert(!acc.contains_key(entries[j + 1].0@));
        }
        lemma_entries_scan_lines(s, inext, rest, acc.insert(e.0@, e.1));
        assert(entries_scan(s, i, acc) == entries_scan(s, inext, acc.insert(e.0@, e.1)));
    }
}

/// Round trip of the document format: the document a store serializes
/// to reads back as exactly that store's mapping, whatever paths and
/// targets it holds.
pub proof fn lemma_document_round_trip(c: Config)
    requires
        c.wf(),
    ensures
        spec_parse_doc(c.doc_spec()) == Some(c@),
{
    let entries = c.version_mappings@;
    let s = spec_document(entries);
    let h = header_chars();
    reveal_strlit("[version_mappings]");
    assert(h.len() == 19);
    assert(s.len() >= h.len());
    assert(s.len() != 0);
    assert(s.take(h.len() as int) =~= h);
    assert(s.subrange(h.len() as int, s.len() as int) =~= lines_chars(entries));
    assert(forall|j: int|
        0 <= j < entries.len() ==> !Map::<Seq<char>, Target>::empty().contains_key(
            #[trigger] entries[j].0@,
        ));
    lemma_entries_scan_lines(s, h.len() as int, entries, Map::empty());
    lemma_extended_is_assoc_map(entries);
}

/// The two on-disk files behind the store: the configuration file and
/// the staging file an update writes before the atomic rename. `None`
/// stands for an absent file. The model mirrors the update protocol:
/// serialize the whole mapping, write it to a fresh staging file in the
/// configuration file's own directory, then rename it over the
/// configuration file; the rename is the atomic boundary.
pub struct StoreDisk {
    pub config: Option<Seq<char>>,
    pub staged: Option<Seq<char>>,
}

/// Writing the staging file; the configuration file is not touched.
pub open spec fn spec_stage(d: StoreDisk, content: Seq<char>) -> StoreDisk {
    StoreDisk { config: d.config, staged: Some(content) }
}

/// The rename: the staged content becomes the configuration file, whole.
pub open spec fn spec_commit(d: StoreDisk) -> StoreDisk
    recommends
        d.staged is Some,
{
    StoreDisk { config: d.staged, staged: None }
}

/// What a later read of the configuration file yields: an absent file
/// is the empty mapping, content is read by the document parser.
pub open spec fn spec_fetch_disk(content: Option<Seq<char>>) -> Option<Map<Seq<char>, Target>> {
    match content {
        None => Some(Map::<Seq<char>, Target>::empty()),
        Some(s) => spec_parse_doc(s),
    }
}

/// Atomic update, interrupted: when the process stops after the staging
/// file is written but before the rename, the configuration file is
/// byte-for-byte unchanged, and a later read sees exactly the state
/// before the update — whatever was staged.
pub proof fn lemma_stage_preserves_config(d: StoreDisk, content: Seq<char>)
    ensures
        spec_stage(d, content).config == d.config,
        spec_fetch_disk(spec_stage(d, content).config) == spec_fetch_disk(d.config),
{
}

/// Atomic update, completed: after staging a store's document and
/// renaming it over the configuration file, a read sees exactly that
/// store's mapping.
pub proof fn lemma_commit_installs_update(d: StoreDisk, c: Config)
    requires
        c.wf(),
    ensures
        spec_fetch_disk(spec_commit(spec_stage(d, c.doc_spec())).config) == Some(c@),
{
    lemma_document_round_trip(c);
}

/// Index of the last occurrence of `c` in `s`, or `-1` when absent.
pub open spec fn last_index_of(s: Seq<char>, c: char) -> int
    decreases s.len(),
{
    if s.len() == 0 {
        -1
    } else if s.last() == c {
        s.len() - 1
    } else {
        last_index_of(s.drop_last(), c)
    }
}

proof fn lemma_last_index_of_props(s: Seq<char>, c: char)
    ensures
        -1 <= last_index_of(s, c) < s.len(),
        last_index_of(s, c) >= 0 ==> s[last_index_of(s, c)] == c,
        forall|j: int| last_index_of(s, c) < j < s.len() ==> s[j] != c,
    decreases s.len(),
{
    if s.len() > 0 && s.last() != c {
        lemma_last_index_of_props(s.drop_last(), c);
        assert forall|j: int| last_index_of(s, c) < j < s.len() implies s[j] != c by {
            if j < s.len() - 1 {
                assert(s.drop_last()[j] == s[j]);
            }
        }
    }
}

proof fn lemma_last_index_of_is(s: Seq<char>, c: char, k: int)
    requires
        -1 <= k < s.len(),
        k >= 0 ==> s[k] == c,
        forall|j: int| k < j < s.len() ==> s[j] != c,
    ensures
        last_index_of(s, c) == k,
    decreases s.len(),
{
    if s.len() > 0 {
        if k == s.len() - 1 {
        } else {
            assert(s.last() != c);
            assert(forall|j: int|
                k < j < s.len() - 1 ==> s.drop_last()[j] == s[j]);
            if k >= 0 {
                assert(s.drop_last()[k] == s[k]);
            }
            lemma_last_index_of_is(s.drop_last(), c, k);
        }
    }
}

/// The parent directory of a path, textually: everything before the
/// last slash, with the root and the empty text as the two ends of the
/// chain. A path without a slash has the empty text as its parent; the
/// root and the empty text have none.
pub open spec fn spec_parent(p: Seq<char>) -> Option<Seq<char>> {
    if p.len() == 0 {
        None
    } else if p.len() == 1 && p[0] == '/' {
        None
    } else {
        let k = last_index_of(p, '/');
        if k == -1 {
            Some(Seq::empty())
        } else if k == 0 {
            Some(seq!['/'])
        } else {
            Some(p.take(k))
        }
    }
}

/// A parent is strictly shorter than its child; the upward search ends.
pub proof fn lemma_parent_shorter(p: Seq<char>)
    ensures
        spec_parent(p) matches Some(q) ==> q.len() < p.len(),
{
    lemma_last_index_of_props(p, '/');
    if p.len() > 0 && !(p.len() == 1 && p[0] == '/') {
        let k = last_index_of(p, '/');
        if k == 0 {
            assert(p[0] == '/');
            assert(p.len() >= 2);
        }
    }
}

/// Computes the parent directory of a path.
pub fn parent_of(path: &str) -> (r: Option<String>)
    ensures
        match spec_parent(path@) {
            None => r is None,
            Some(q) => r matches Some(p) && p@ == q,
        },
{
    let ghost s = path@;
    let len = path.unicode_len();
    if len == 0 {
        return None;
    }
    if len == 1 && path.get_char(0) == '/' {
        return None;
    }
    let mut last_slash: Option<usize> = None;
    let mut i: usize = 0;
    while i < len
        invariant
            s == path@,
            len == s.len(),
            0 <= i <= len,
            match last_slash {
                None => forall|j: int| 0 <= j < i ==> s[j] != '/',
                Some(k) => k < i && s[k as int] == '/' && (forall|j: int|
                    k < j < i ==> s[j] != '/'),
            },
        decreases len - i,
    {
        if path.get_char(i) == '/' {
            last_slash = Some(i);
        }
        i = i + 1;
    }
    match last_slash {
        None => {
            proof {
                lemma_last_index_of_is(s, '/', -1);
            }
            Some(String::new())
        },
        Some(k) => {
            proof {
                lemma_last_index_of_is(s, '/', k as int);
            }
            if k == 0 {
                let root = String::from_str("/");
                proof {
                    reveal_strlit("/");
                    assert(root@ =~= seq!['/']);
                }
                Some(root)
            } else {
                Some(String::from_str(path.substring_char(0, k)))
            }
        },
    }
}

/// How the upward search concluded: an exact-path override at the
/// nearest enclosing directory that has one, else the version pinned by
/// the nearest marker file, a fault when that marker does not parse,
/// and the `default` entry only when nothing between the starting
/// directory and the root matched.
pub enum Resolution {
    ByOverride(Target),
    ByMarker(Target),
    MarkerInvalid(Seq<char>),
    UseDefault,
}

/// What one directory's marker file decides: the pinned version paired
/// with the build platform's tag, or a fault naming the directory.
pub open spec fn marker_outcome(content: String, dir: Seq<char>) -> Resolution {
    match spec_version_parts(content@) {
        Some(p) => Resolution::ByMarker(
            Target {
                os: OperatingSystem::Linux,
                version: Version {
                    major: p.0 as usize,
                    minor: p.1 as usize,
                    patch: p.2 as usize,
                },
            },
        ),
        None => Resolution::MarkerInvalid(dir),
    }
}

/// The upward search itself, over the override mapping and the marker
/// contents by directory: try the exact path, then the directory's
/// marker, then the parent.
pub open spec fn spec_resolve(
    m: Map<Seq<char>, Target>,
    markers: Map<Seq<char>, String>,
    dir: Seq<char>,
) -> Resolution
    decreases dir.len(),
    via check_spec_resolve_decreases
{
    if m.contains_key(dir) {
        Resolution::ByOverride(m[dir])
    } else if markers.contains_key(dir) {
        marker_outcome(markers[dir], dir)
    } else {
        match spec_parent(dir) {
            Some(p) => spec_resolve(m, markers, p),
            None => Resolution::UseDefault,
        }
    }
}

#[via_fn]
proof fn check_spec_resolve_decreases(
    m: Map<Seq<char>, Target>,
    markers: Map<Seq<char>, String>,
    dir: Seq<char>,
) {
    lemma_parent_shorter(dir);
}

/// The chain of directories the upward search visits: the starting
/// directory, then its parents up to the root of the path text.
pub open spec fn dir_chain(dir: Seq<char>) -> Seq<Seq<char>>
    decreases dir.len(),
    via check_dir_chain_decreases
{
    match spec_parent(dir) {
        Some(p) => seq![dir] + dir_chain(p),
        None => seq![dir],
    }
}

#[via_fn]
proof fn check_dir_chain_decreases(dir: Seq<char>) {
    lemma_parent_shorter(dir);
}

/// Nearest enclosing directory wins: when no directory of the chain
/// before position `k` has an exact override or a marker, the search's
/// outcome is decided at `chain[k]` — by its override when it has one,
/// else by its marker.
pub proof fn lemma_resolve_nearest(
    m: Map<Seq<char>, Target>,
    markers: Map<Seq<char>, String>,
    dir: Seq<char>,
    k: int,
)
    requires
        0 <= k < dir_chain(dir).len(),
        forall|j: int|
            0 <= j < k ==> !m.contains_key(#[trigger] dir_chain(dir)[j]) && !markers.contains_key(
                dir_chain(dir)[j],
            ),
        m.contains_key(dir_chain(dir)[k]) || markers.contains_key(dir_chain(dir)[k]),
    ensures
        m.contains_key(dir_chain(dir)[k]) ==> spec_resolve(m, markers, dir)
            == Resolution::ByOverride(m[dir_chain(dir)[k]]),
        !m.contains_key(dir_chain(dir)[k]) ==> spec_resolve(m, markers, dir) == marker_outcome(
            markers[dir_chain(dir)[k]],
            dir_chain(dir)[k],
        ),
    decreases dir.len(),
{
    lemma_parent_shorter(dir);
    assert(dir_chain(dir)[0] == dir);
    if k == 0 {
    } else {
        assert(!m.contains_key(dir) && !markers.contains_key(dir));
        match spec_parent(dir) {
            Some(p) => {
                assert forall|j: int|
                    0 <= j < k - 1 implies !m.contains_key(#[trigger] dir_chain(p)[j])
                    && !markers.contains_key(dir_chain(p)[j]) by {
                    assert(dir_chain(dir)[j + 1] == dir_chain(p)[j]);
                }
                assert(dir_chain(dir)[k] == dir_chain(p)[k - 1]);
                lemma_resolve_nearest(m, markers, p, k - 1);
            },
            None => {
                assert(dir_chain(dir).len() == 1);
            },
        }
    }
}

/// Fallback to the default entry: when no directory of the chain, from
/// the starting directory up to the root, has an exact override or a
/// marker, the search falls through to the reserved `default` entry.
pub proof fn lemma_resolve_default(
    m: Map<Seq<char>, Target>,
    markers: Map<Seq<char>, String>,
    dir: Seq<char>,
)
    requires
        forall|j: int|
            0 <= j < dir_chain(dir).len() ==> !m.contains_key(#[trigger] dir_chain(dir)[j])
                && !markers.contains_key(dir_chain(dir)[j]),
    ensures
        spec_resolve(m, markers, dir) == Resolution::UseDefault,
    decreases dir.len(),
{
    lemma_parent_shorter(dir);
    assert(dir_chain(dir)[0] == dir);
    match spec_parent(dir) {
        Some(p) => {
            assert forall|j: int|
                0 <= j < dir_chain(p).len() implies !m.contains_key(#[trigger] dir_chain(p)[j])
                && !markers.contains_key(dir_chain(p)[j]) by {
                assert(dir_chain(dir)[j + 1] == dir_chain(p)[j]);
            }
            lemma_resolve_default(m, markers, p);
        },
        None => {},
    }
}

/// The content of the marker file in `key`, if the scan found one.
fn marker_content<'a>(markers: &'a Vec<(String, String)>, key: &str) -> (r: Option<&'a String>)
    requires
        keys_unique(markers@),
    ensures
        r is Some <==> assoc_map(markers@).contains_key(key@),
        r matches Some(v) ==> assoc_map(markers@)[key@] == *v,
{
    proof {
        lemma_assoc_map_dom(markers@, key@);
    }
    let len = markers.len();
    let mut i: usize = 0;
    while i < len
        invariant
            keys_unique(markers@),
            len == markers@.len(),
            0 <= i <= len,
            forall|j: int| 0 <= j < i ==> markers@[j].0@ != key@,
        decreases len - i,
    {
        if str_eq(markers[i].0.as_str(), key) {
            proof {
                lemma_assoc_map_index(markers@, i as int);
            }
            return Some(&markers[i].1);
        }
        i = i + 1;
    }
    None
}

/// Reads an escaped key with the scanner's exact outcome.
fn scan_key(content: &str, start: usize) -> (r: Option<(String, usize)>)
    requires
        start <= content@.len(),
    ensures
        match r {
            Some((k, e)) => key_scan(content@, start as int) == Some((k@, e as int)) && start < e
                <= content@.len(),
            None => key_scan(content@, start as int) is None,
        },
{
    let ghost s = content@;
    let len = content.unicode_len();
    let mut out = String::new();
    let mut j = start;
    while j < len
        invariant
            s == content@,
            len == s.len(),
            start <= j <= len,
            match key_scan(s, j as int) {
                None => key_scan(s, start as int) is None,
                Some(p) => key_scan(s, start as int) == Some((out@ + p.0, p.1)),
            },
        decreases len - j,
    {
        let c = content.get_char(j);
        if c == '"' {
            proof {
                assert(key_scan(s, j as int) == Some((Seq::<char>::empty(), j + 1)));
                assert(out@ + Seq::<char>::empty() =~= out@);
                lemma_key_scan_bounds(s, start as int);
            }
            return Some((out, j + 1));
        } else if c == '\\' {
            if j + 1 >= len {
                return None;
            }
            let c2 = content.get_char(j + 1);
            let d: char = if c2 == '\\' {
                '\\'
            } else if c2 == '"' {
                '"'
            } else if c2 == 'n' {
                '\n'
            } else {
                return None;
            };
            let ghost out_before = out@;
            push_char(&mut out, d);
            proof {
                match key_scan(s, j + 2) {
                    None => {},
                    Some(p) => {
                        assert(key_scan(s, j as int) == Some((seq![d] + p.0, p.1)));
                        assert(out_before + (seq![d] + p.0) =~= out@ + p.0);
                    },
                }
            }
            j = j + 2;
        } else {
            let ghost out_before = out@;
            push_char(&mut out, c);
            proof {
                match key_scan(s, j + 1) {
                    None => {},
                    Some(p) => {
                        assert(key_scan(s, j as int) == Some((seq![c] + p.0, p.1)));
                        assert(out_before + (seq![c] + p.0) =~= out@ + p.0);
                    },
                }
            }
            j = j + 1;
        }
    }
    None
}

/// Reads a raw value with the scanner's exact outcome.
fn scan_value(content: &str, start: usize) -> (r: Option<(String, usize)>)
    requires
        start <= content@.len(),
    ensures
        match r {
            Some((v, e)) => value_scan(content@, start as int) == Some((v@, e as int)) && start
                < e <= content@.len(),
            None => value_scan(content@, start as int) is None,
        },
{
    let ghost s = content@;
    let len = content.unicode_len();
    let mut out = String::new();
    let mut j = start;
    while j < len
        invariant
            s == content@,
            len == s.len(),
            start <= j <= len,
            match value_scan(s, j as int) {
                None => value_scan(s, start as int) is None,
                Some(p) => value_scan(s, start as int) == Some((out@ + p.0, p.1)),
            },
        decreases len - j,
    {
        let c = content.get_char(j);
        if c == '"' {
            proof {
                assert(value_scan(s, j as int) == Some((Seq::<char>::empty(), j + 1)));
                assert(out@ + Seq::<char>::empty() =~= out@);
                lemma_value_scan_bounds(s, start as int);
            }
            return Some((out, j + 1));
        } else {
            let ghost out_before = out@;
            push_char(&mut out, c);
            proof {
                match value_scan(s, j + 1) {
                    None => {},
                    Some(p) => {
                        assert(value_scan(s, j as int) == Some((seq![c] + p.0, p.1)));
                        assert(out_before + (seq![c] + p.0) =~= out@ + p.0);
                    },
                }
            }
            j = j + 1;
        }
    }
    None
}

/// Reads one entry line with the scanner's exact outcome.
fn scan_entry(content: &str, start: usize) -> (r: Option<(String, Target, usize)>)
    requires
        start <= content@.len(),
    ensures
        match r {
            Some((k, t, e)) => entry_scan(content@, start as int) == Some((k@, t, e as int))
                && start < e <= content@.len(),
            None => entry_scan(content@, start as int) is None,
        },
{
    let ghost s = content@;
    let len = content.unicode_len();
    if start >= len || content.get_char(start) != '"' {
        return None;
    }
    let (key, e1) = match scan_key(content, start + 1) {
        Some(p) => p,
        None => {
            return None;
        },
    };
    if len - e1 < 4 {
        return None;
    }
    if !(content.get_char(e1) == ' ' && content.get_char(e1 + 1) == '=' && content.get_char(
        e1 + 2,
    ) == ' ' && content.get_char(e1 + 3) == '"') {
        return None;
    }
    let (vtext, e2) = match scan_value(content, e1 + 4) {
        Some(p) => p,
        None => {
            return None;
        },
    };
    if e2 >= len || content.get_char(e2) != '\n' {
        return None;
    }
    match Target::parse(vtext.as_str()) {
        Ok(t) => Some((key, t, e2 + 1)),
        Err(_) => None,
    }
}

/// Appends a key in its written form.
fn append_escaped(out: &mut String, s: &str)
    ensures
        final(out)@ == old(out)@ + esc(s@),
{
    let len = s.unicode_len();
    let mut i: usize = 0;
    proof {
        assert(s@.take(0) =~= Seq::<char>::empty());
        assert(out@ =~= out@ + esc(s@.take(0)));
    }
    while i < len
        invariant
            len == s@.len(),
            0 <= i <= len,
            out@ == old(out)@ + esc(s@.take(i as int)),
        decreases len - i,
    {
        let c = s.get_char(i);
        if c == '\\' {
            push_char(out, '\\');
            push_char(out, '\\');
        } else if c == '"' {
            push_char(out, '\\');
            push_char(out, '"');
        } else if c == '\n' {
            push_char(out, '\\');
            push_char(out, 'n');
        } else {
            push_char(out, c);
        }
        proof {
            lemma_esc_snoc(s@.take(i as int), s@[i as int]);
            assert(s@.take(i + 1) =~= s@.take(i as int).push(s@[i as int]));
            assert(out@ =~= old(out)@ + esc(s@.take(i + 1)));
        }
        i = i + 1;
    }
    proof {
        assert(s@.take(len as int) =~= s@);
    }
}

/// The override store: path (or `default`) to target, keys unique.
#[derive(Debug)]
pub struct Config {
    version_mappings: Vec<(String, Target)>,
}

impl View for Config {
    type V = Map<Seq<char>, Target>;

    closed spec fn view(&self) -> Map<Seq<char>, Target> {
        assoc_map(self.version_mappings@)
    }
}

impl Config {
    /// The representation holds no two entries with one key.
    pub closed spec fn wf(&self) -> bool {
        keys_unique(self.version_mappings@)
    }

    /// The empty store.
    pub fn new() -> (r: Config)
        ensures
            r.wf(),
            r@ == Map::<Seq<char>, Target>::empty(),
    {
        Config { version_mappings: Vec::new() }
    }

    /// Position of the entry holding `key`, if any.
    fn index_of_key(&self, key: &str) -> (r: Option<usize>)
        ensures
            match r {
                Some(i) => i < self.version_mappings@.len() && self.version_mappings@[i as int].0@
                    == key@,
                None => forall|j: int|
                    0 <= j < self.version_mappings@.len() ==> self.version_mappings@[j].0@ != key@,
            },
    {
        let len = self.version_mappings.len();
        let mut i: usize = 0;
        while i < len
            invariant
                len == self.version_mappings@.len(),
                0 <= i <= len,
                forall|j: int| 0 <= j < i ==> self.version_mappings@[j].0@ != key@,
            decreases len - i,
        {
            if str_eq(self.version_mappings[i].0.as_str(), key) {
                return Some(i);
            }
            i = i + 1;
        }
        None
    }

    /// The target an exact key maps to, if any.
    pub fn get_override(&self, key: &str) -> (r: Option<Target>)
        requires
            self.wf(),
        ensures
            r is Some <==> self@.contains_key(key@),
            r matches Some(t) ==> self@[key@] == t,
    {
        proof {
            lemma_assoc_map_dom(self.version_mappings@, key@);
        }
        match self.index_of_key(key) {
            Some(i) => {
                proof {
                    lemma_assoc_map_index(self.version_mappings@, i as int);
                }
                Some(self.version_mappings[i].1)
            },
            None => None,
        }
    }

    /// Inserts or replaces the mapping entry for `dir`.
    pub fn set_override(&mut self, target: Target, dir: String)
        requires
            old(self).wf(),
        ensures
            final(self).wf(),
            final(self)@ == old(self)@.insert(dir@, target),
    {
        match self.index_of_key(dir.as_str()) {
            Some(i) => {
                proof {
                    lemma_assoc_map_update(
                        self.version_mappings@,
                        i as int,
                        (dir, target),
                    );
                }
                self.version_mappings.set(i, (dir, target));
            },
            None => {
                proof {
                    let s = self.version_mappings@;
                    let t = s.push((dir, target));
                    assert(t.drop_last() =~= s);
                    assert(forall|a: int| 0 <= a < s.len() ==> t[a] == s[a]);
                }
                self.version_mappings.push((dir, target));
            },
        }
    }

    /// Removes the mapping entry for `dir`; absent entries are left as
    /// they are, which is no error.
    pub fn remove_override(&mut self, dir: String)
        requires
            old(self).wf(),
        ensures
            final(self).wf(),
            final(self)@ == old(self)@.remove(dir@),
    {
        match self.index_of_key(dir.as_str()) {
            Some(i) => {
                proof {
                    lemma_assoc_map_remove(self.version_mappings@, i as int);
                    assert(self.version_mappings@[i as int].0@ == dir@);
                }
                self.version_mappings.remove(i);
            },
            None => {
                proof {
                    lemma_assoc_map_dom(self.version_mappings@, dir@);
                    assert(!self@.contains_key(dir@));
                    assert(self@.remove(dir@) =~= self@);
                }
            },
        }
    }

    /// The document this store serializes to.
    pub closed spec fn doc_spec(&self) -> Seq<char> {
        spec_document(self.version_mappings@)
    }

    /// Serializes the whole store to its document form. This is what an
    /// update writes to the staging file before the atomic rename.
    pub fn to_document(&self) -> (r: String)
        ensures
            r@ == self.doc_spec(),
    {
        let mut out = String::from_str("[version_mappings]");
        push_char(&mut out, '\n');
        let len = self.version_mappings.len();
        let mut i: usize = 0;
        proof {
            assert(self.version_mappings@.take(0) =~= Seq::<(String, Target)>::empty());
            assert(out@ =~= header_chars() + lines_chars(self.version_mappings@.take(0)));
        }
        while i < len
            invariant
                len == self.version_mappings@.len(),
                0 <= i <= len,
                out@ == header_chars() + lines_chars(self.version_mappings@.take(i as int)),
            decreases len - i,
        {
            let ghost before = out@;
            let entry = &self.version_mappings[i];
            push_char(&mut out, '"');
            append_escaped(&mut out, entry.0.as_str());
            push_char(&mut out, '"');
            push_char(&mut out, ' ');
            push_char(&mut out, '=');
            push_char(&mut out, ' ');
            push_char(&mut out, '"');
            let ttext = entry.1.to_string();
            out.append(ttext.as_str());
            push_char(&mut out, '"');
            push_char(&mut out, '\n');
            proof {
                let s = self.version_mappings@;
                assert(out@ =~= before + entry_line(s[i as int].0@, s[i as int].1));
                lemma_lines_snoc(s.take(i as int), s[i as int]);
                assert(s.take(i + 1) =~= s.take(i as int).push(s[i as int]));
                assert(out@ =~= header_chars() + lines_chars(s.take(i + 1)));
            }
            i = i + 1;
        }
        proof {
            assert(self.version_mappings@.take(len as int) =~= self.version_mappings@);
        }
        out
    }

    /// Reads a store back from the content of its configuration file.
    /// Empty content — a file never yet written — is the empty mapping;
    /// any content that is not a valid document of this store is a
    /// corruption fault, never repaired silently.
    pub fn fetch(content: &str) -> (r: Result<Config, ConfigError>)
        ensures
            r is Ok <==> spec_parse_doc(content@) is Some,
            r matches Ok(c) ==> c.wf() && spec_parse_doc(content@) == Some(c@),
            r matches Err(e) ==> e matches ConfigError::Corruption { .. },
    {
        let ghost s = content@;
        let len = content.unicode_len();
        if len == 0 {
            return Ok(Config::new());
        }
        let mut header = String::from_str("[version_mappings]");
        push_char(&mut header, '\n');
        proof {
            assert(header@ =~= header_chars());
        }
        let hlen = header.unicode_len();
        if len < hlen {
            return Err(
                ConfigError::Corruption {
                    detail: String::from_str("the document does not begin with the table header"),
                },
            );
        }
        let prefix = content.substring_char(0, hlen);
        if !str_eq(prefix, header.as_str()) {
            return Err(
                ConfigError::Corruption {
                    detail: String::from_str("the document does not begin with the table header"),
                },
            );
        }
        let mut cfg = Config::new();
        let mut pos = hlen;
        while pos < len
            invariant
                s == content@,
                len == s.len(),
                hlen == header_chars().len(),
                pos <= len,
                cfg.wf(),
                entries_scan(s, hlen as int, Map::empty()) == entries_scan(s, pos as int, cfg@),
            decreases len - pos,
        {
            match scan_entry(content, pos) {
                None => {
                    return Err(
                        ConfigError::Corruption {
                            detail: String::from_str("a mapping line is malformed"),
                        },
                    );
                },
                Some((key, t, e)) => {
                    match cfg.get_override(key.as_str()) {
                        Some(_) => {
                            return Err(
                                ConfigError::Corruption {
                                    detail: String::from_str("a path key appears twice"),
                                },
                            );
                        },
                        None => {
                            proof {
                                assert(entries_scan(s, pos as int, cfg@) == entries_scan(
                                    s,
                                    e as int,
                                    cfg@.insert(key@, t),
                                ));
                            }
                            cfg.set_override(t, key);
                            pos = e;
                        },
                    }
                },
            }
        }
        Ok(cfg)
    }

    /// The upward-search resolution query: starting at `from_dir`, the
    /// nearest enclosing exact-path override wins; a directory without
    /// one is consulted for its version-pin marker, whose content comes
    /// in through `markers` keyed by directory; only when no directory
    /// up to the root matches does the reserved `default` entry apply,
    /// and with no such entry there is no active target. A marker that
    /// does not parse is a fault naming its directory.
    pub fn get_active_target(&self, from_dir: &str, markers: &Vec<(String, String)>) -> (r:
        Result<Option<Target>, ConfigError>)
        requires
            self.wf(),
            keys_unique(markers@),
        ensures
            match spec_resolve(self@, assoc_map(markers@), from_dir@) {
                Resolution::ByOverride(t) => r == Ok::<Option<Target>, ConfigError>(Some(t)),
                Resolution::ByMarker(t) => r == Ok::<Option<Target>, ConfigError>(Some(t)),
                Resolution::MarkerInvalid(d) => r matches Err(ConfigError::ParseError {
                    path,
                    source,
                }) && path@ == d,
                Resolution::UseDefault => r == Ok::<Option<Target>, ConfigError>(
                    if self@.contains_key("default"@) {
                        Some(self@["default"@])
                    } else {
                        None
                    },
                ),
            },
        decreases from_dir@.len(),
    {
        match self.get_override(from_dir) {
            Some(t) => {
                return Ok(Some(t));
            },
            None => {},
        }
        match marker_content(markers, from_dir) {
            Some(content) => {
                match Version::parse(content.as_str()) {
                    Ok(v) => {
                        return Ok(Some(Target::from_version(v)));
                    },
                    Err(source) => {
                        return Err(
                            ConfigError::ParseError { path: String::from_str(from_dir), source },
                        );
                    },
                }
            },
            None => {},
        }
        match parent_of(from_dir) {
            Some(p) => {
                proof {
                    lemma_parent_shorter(from_dir@);
                }
                self.get_active_target(p.as_str(), markers)
            },
            None => {
                match self.get_override("default") {
                    Some(t) => Ok(Some(t)),
                    None => Ok(None),
                }
            },
        }
    }

    /// Every (path, target) pair of the store, for listing. The order
    /// carries no meaning.
    pub fn active_versions(self) -> (r: Vec<(String, Target)>)
        requires
            self.wf(),
        ensures
            keys_unique(r@),
            assoc_map(r@) == self@,
    {
        self.version_mappings
    }
}

} // verus!
