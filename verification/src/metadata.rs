//! Field metadata: parsing backtick metadata strings such as
//! `json:"id" db:"user_id"`, merging metadata from several sources, and
//! applying policies (named metadata templates with parents) to struct fields.
use vstd::prelude::*;
use vstd::string::*;
use crate::strmap::StrMap;
use crate::text::{str_eq, char_is_alphanumeric, char_is_whitespace, concat_str, is_white_space, push_char, str_chars, is_alphanumeric_char};

verus! {

// ---------------------------------------------------------------------------
// The metadata map
// ---------------------------------------------------------------------------

/// The metadata of one field: keys mapped to values, in first-insertion order.
pub struct Metadata {
    map: StrMap<String>,
}

/// The (key, value) pairs of an association list, as character sequences.
pub open spec fn pairs_of(e: Seq<(String, String)>) -> Seq<(Seq<char>, Seq<char>)> {
    e.map_values(|p: (String, String)| (p.0@, p.1@))
}

impl Metadata {
    /// The map from keys to values.
    pub closed spec fn view(self) -> Map<Seq<char>, Seq<char>> {
        self.map.view().map_values(|v: String| v@)
    }

    /// The (key, value) pairs in insertion order.
    pub closed spec fn pairs(self) -> Seq<(Seq<char>, Seq<char>)> {
        pairs_of(self.map.entries())
    }

    /// Empty metadata.
    pub fn new() -> (r: Self)
        ensures
            r@ == Map::<Seq<char>, Seq<char>>::empty(),
            r.pairs() == Seq::<(Seq<char>, Seq<char>)>::empty(),
    {
        let m = StrMap::new();
        let r = Metadata { map: m };
        assert(r@ =~= Map::<Seq<char>, Seq<char>>::empty());
        assert(r.pairs() =~= Seq::<(Seq<char>, Seq<char>)>::empty());
        r
    }

    /// The number of keys. Also tells that the pairs list every key once
    /// with its value.
    pub fn len(&self) -> (r: usize)
        ensures
            r == self.pairs().len(),
            r == self@.dom().len(),
            pairs_consistent(self@, self.pairs()),
    {
        let n = self.map.len();
        proof {
            let e = self.map.entries();
            assert forall|k: Seq<char>| #[trigger] self@.dom().contains(k) <==>
                exists|i: int| 0 <= i < self.pairs().len() && self.pairs()[i].0 == k by {
                if self@.dom().contains(k) {
                    assert(self.map.key_order().contains(k));
                    let i = choose|i: int| 0 <= i < self.map.key_order().len() && self.map.key_order()[i] == k;
                    assert(self.pairs()[i].0 == k);
                }
                if exists|i: int| 0 <= i < self.pairs().len() && self.pairs()[i].0 == k {
                    let i = choose|i: int| 0 <= i < self.pairs().len() && self.pairs()[i].0 == k;
                    assert(e[i].0@ == k);
                    assert(self.map.view().dom().contains(e[i].0@));
                }
            }
            assert forall|i: int, j: int| 0 <= i < self.pairs().len() && 0 <= j < self.pairs().len() && i != j
                implies #[trigger] self.pairs()[i].0 != #[trigger] self.pairs()[j].0 by {
                assert(e[i].0@ != e[j].0@);
            }
            assert forall|i: int| #![trigger self.pairs()[i]] 0 <= i < self.pairs().len() implies
                self@.dom().contains(self.pairs()[i].0) && self@[self.pairs()[i].0] == self.pairs()[i].1 by {
                assert(self.map.view().dom().contains(e[i].0@));
            }
            assert(self@.dom() =~= self.map.view().dom());
        }
        n
    }

    /// Whether `key` has a value.
    pub fn contains_key(&self, key: &str) -> (r: bool)
        ensures
            r == self@.dom().contains(key@),
    {
        self.map.contains_key(key)
    }

    /// The value stored under `key`, if any.
    pub fn get(&self, key: &str) -> (r: Option<&String>)
        ensures
            match r {
                Some(v) => self@.dom().contains(key@) && v@ == self@[key@],
                None => !self@.dom().contains(key@),
            },
    {
        self.map.get(key)
    }

    /// The pair at position `i` in insertion order.
    pub fn pair_at(&self, i: usize) -> (r: (&String, &String))
        requires
            i < self.pairs().len(),
        ensures
            r.0@ == self.pairs()[i as int].0,
            r.1@ == self.pairs()[i as int].1,
    {
        self.map.entry_at(i)
    }

    /// Stores `value` under `key`, replacing any earlier value. A new key is
    /// listed after all existing ones; an existing key keeps its place.
    pub fn insert(&mut self, key: String, value: String)
        ensures
            final(self)@ == old(self)@.insert(key@, value@),
            !old(self)@.dom().contains(key@) ==> final(self).pairs() == old(self).pairs().push((key@, value@)),
            old(self)@.dom().contains(key@) ==> exists|i: int| 0 <= i < old(self).pairs().len()
                && old(self).pairs()[i].0 == key@
                && final(self).pairs() == old(self).pairs().update(i, (key@, value@)),
    {
        let ghost k = key@;
        let ghost v = value@;
        let ghost kv = (key, value);
        let ghost old_e = self.map.entries();
        self.map.insert(key, value);
        proof {
            assert(self@ =~= old(self)@.insert(k, v));
            if !old(self)@.dom().contains(k) {
                assert(self.pairs() =~= old(self).pairs().push((k, v)));
            } else {
                let i = choose|i: int| 0 <= i < old_e.len()
                    && old_e[i].0@ == k
                    && self.map.entries() == old_e.update(i, kv);
                assert(self.pairs() =~= old(self).pairs().update(i, (k, v)));
            }
        }
    }

    /// A copy with the same pairs in the same order.
    pub fn duplicate(&self) -> (r: Metadata)
        ensures
            r@ == self@,
            r.pairs() == self.pairs(),
    {
        let n = self.len();
        let mut r = Metadata::new();
        let mut i: usize = 0;
        while i < n
            invariant
                n == self.pairs().len(),
                i <= n,
                r.pairs() == self.pairs().take(i as int),
                unique_pair_keys(self.pairs()),
            decreases n - i,
        {
            let (k, v) = self.pair_at(i);
            let _ = r.len();
            assert(!r@.dom().contains(k@)) by {
                if r@.dom().contains(k@) {
                    let j = choose|j: int| 0 <= j < r.pairs().len() && r.pairs()[j].0 == k@;
                    assert(self.pairs()[j].0 == self.pairs()[i as int].0);
                }
            }
            r.insert(k.clone(), v.clone());
            assert(self.pairs().take(i + 1) =~= self.pairs().take(i as int).push(self.pairs()[i as int]));
            i = i + 1;
        }
        let _ = r.len();
        assert(self.pairs().take(n as int) =~= self.pairs());
        proof {
            lemma_consistent_view(self@, self.pairs());
            lemma_consistent_view(r@, r.pairs());
        }
        r
    }
}

/// No key is listed twice.
pub open spec fn unique_pair_keys(ps: Seq<(Seq<char>, Seq<char>)>) -> bool {
    forall|i: int, j: int| 0 <= i < ps.len() && 0 <= j < ps.len() && i != j
        ==> #[trigger] ps[i].0 != #[trigger] ps[j].0
}

/// The pairs list every key of `m` exactly once, with its value.
pub open spec fn pairs_consistent(m: Map<Seq<char>, Seq<char>>, ps: Seq<(Seq<char>, Seq<char>)>) -> bool {
    &&& m.dom().finite()
    &&& unique_pair_keys(ps)
    &&& forall|i: int| #![trigger ps[i]] 0 <= i < ps.len() ==> m.dom().contains(ps[i].0) && m[ps[i].0] == ps[i].1
    &&& forall|k: Seq<char>| #[trigger] m.dom().contains(k) <==> exists|i: int| 0 <= i < ps.len() && ps[i].0 == k
}

/// A map whose pairs are consistent with it is the map the pairs build.
pub proof fn lemma_consistent_view(m: Map<Seq<char>, Seq<char>>, ps: Seq<(Seq<char>, Seq<char>)>)
    requires
        pairs_consistent(m, ps),
    ensures
        m == metadata_map(ps),
{
    lemma_metadata_map_unique(ps);
    assert forall|k: Seq<char>| m.dom().contains(k) <==> metadata_map(ps).dom().contains(k) by {}
    assert forall|k: Seq<char>| m.dom().contains(k) implies m[k] == metadata_map(ps)[k] by {
        let i = choose|i: int| 0 <= i < ps.len() && ps[i].0 == k;
        assert(ps[i] == ps[i]);
    }
    assert(m =~= metadata_map(ps));
}

/// The map built from pairs holds each listed key; with unique keys, the
/// value listed with it.
pub proof fn lemma_metadata_map_unique(ps: Seq<(Seq<char>, Seq<char>)>)
    ensures
        forall|k: Seq<char>| #[trigger] metadata_map(ps).dom().contains(k) <==>
            exists|i: int| 0 <= i < ps.len() && ps[i].0 == k,
        unique_pair_keys(ps) ==> forall|i: int| #![trigger ps[i]] 0 <= i < ps.len() ==>
            metadata_map(ps)[ps[i].0] == ps[i].1,
    decreases ps.len(),
{
    if ps.len() > 0 {
        let qs = ps.drop_last();
        lemma_metadata_map_unique(qs);
        assert(metadata_map(ps) == metadata_map(qs).insert(ps.last().0, ps.last().1));
        assert forall|k: Seq<char>| #[trigger] metadata_map(ps).dom().contains(k) <==>
            exists|i: int| 0 <= i < ps.len() && ps[i].0 == k by {
            if metadata_map(ps).dom().contains(k) && k != ps.last().0 {
                assert(metadata_map(qs).dom().contains(k));
                let i = choose|i: int| 0 <= i < qs.len() && qs[i].0 == k;
                assert(ps[i].0 == k);
            }
            if exists|i: int| 0 <= i < ps.len() && ps[i].0 == k {
                let i = choose|i: int| 0 <= i < ps.len() && ps[i].0 == k;
                if i < qs.len() {
                    assert(qs[i].0 == k);
                }
            }
        }
        if unique_pair_keys(ps) {
            assert(unique_pair_keys(qs)) by {
                assert forall|i: int, j: int| 0 <= i < qs.len() && 0 <= j < qs.len() && i != j
                    implies #[trigger] qs[i].0 != #[trigger] qs[j].0 by {
                    assert(ps[i].0 != ps[j].0);
                }
            }
            assert forall|i: int| #![trigger ps[i]] 0 <= i < ps.len() implies
                metadata_map(ps)[ps[i].0] == ps[i].1 by {
                if i < qs.len() {
                    assert(qs[i] == ps[i]);
                    assert(ps[i].0 != ps[ps.len() - 1].0);
                }
            }
        }
    }
}

/// The map that inserting the pairs in order builds (a later pair for the
/// same key replaces an earlier one).
pub open spec fn metadata_map(ps: Seq<(Seq<char>, Seq<char>)>) -> Map<Seq<char>, Seq<char>>
    decreases ps.len(),
{
    if ps.len() == 0 {
        Map::empty()
    } else {
        metadata_map(ps.drop_last()).insert(ps.last().0, ps.last().1)
    }
}

/// The pairs listed after storing `(k, v)`: an existing key keeps its
/// place and takes the new value, a new key goes last.
pub open spec fn insert_pair(ps: Seq<(Seq<char>, Seq<char>)>, k: Seq<char>, v: Seq<char>) -> Seq<(Seq<char>, Seq<char>)> {
    if exists|i: int| 0 <= i < ps.len() && ps[i].0 == k {
        ps.update(choose|i: int| 0 <= i < ps.len() && ps[i].0 == k, (k, v))
    } else {
        ps.push((k, v))
    }
}

/// The pairs listed after storing each of `ps` in order into empty metadata.
pub open spec fn metadata_pairs(ps: Seq<(Seq<char>, Seq<char>)>) -> Seq<(Seq<char>, Seq<char>)>
    decreases ps.len(),
{
    if ps.len() == 0 {
        Seq::empty()
    } else {
        insert_pair(metadata_pairs(ps.drop_last()), ps.last().0, ps.last().1)
    }
}

impl Metadata {
    /// Stores `value` under `key`, with the listed pairs following `insert_pair`.
    pub fn store(&mut self, key: String, value: String)
        ensures
            final(self)@ == old(self)@.insert(key@, value@),
            final(self).pairs() == insert_pair(old(self).pairs(), key@, value@),
    {
        let _ = self.len();
        let ghost k = key@;
        let ghost v = value@;
        let ghost ps = self.pairs();
        self.insert(key, value);
        proof {
            if exists|i: int| 0 <= i < ps.len() && ps[i].0 == k {
                let c = choose|i: int| 0 <= i < ps.len() && ps[i].0 == k;
                let i = choose|i: int| 0 <= i < ps.len() && ps[i].0 == k
                    && self.pairs() == ps.update(i, (k, v));
                assert(i == c);
            } else {
                assert(old(self)@.dom().contains(k) ==> exists|i: int| 0 <= i < ps.len() && ps[i].0 == k);
            }
        }
    }
}

} // verus!

verus! {

// ---------------------------------------------------------------------------
// Parsing `key:"value"` metadata strings
// ---------------------------------------------------------------------------

/// Characters allowed in a metadata key: alphanumeric or underscore.
pub open spec fn is_key_char(c: char) -> bool {
    is_alphanumeric_char(c) || c == '_'
}

/// The first position at or after `i` that does not hold whitespace.
pub open spec fn skip_ws(s: Seq<char>, i: int) -> int
    decreases s.len() - i,
{
    if 0 <= i < s.len() && is_white_space(s[i]) {
        skip_ws(s, i + 1)
    } else {
        i
    }
}

/// The first position at or after `i` that does not hold a key character.
pub open spec fn key_end(s: Seq<char>, i: int) -> int
    decreases s.len() - i,
{
    if 0 <= i < s.len() && is_key_char(s[i]) {
        key_end(s, i + 1)
    } else {
        i
    }
}

/// The characters an escape sequence `\c` stands for: `\n`, `\t`, `\r`,
/// `\\` and `\"` are decoded; any other escape is kept as written.
pub open spec fn unescape(c: char) -> Seq<char> {
    if c == 'n' {
        seq!['\n']
    } else if c == 't' {
        seq!['\t']
    } else if c == 'r' {
        seq!['\r']
    } else if c == '\\' {
        seq!['\\']
    } else if c == '"' {
        seq!['"']
    } else {
        seq!['\\', c]
    }
}

/// Reads a quoted value whose text starts at `i` (just after the opening
/// quote): the decoded value and the position just past the closing quote,
/// or `None` when the input ends before the closing quote.
pub open spec fn scan_value(s: Seq<char>, i: int) -> Option<(Seq<char>, int)>
    decreases s.len() - i,
{
    if i < 0 || i >= s.len() {
        None
    } else if s[i] == '"' {
        Some((Seq::<char>::empty(), i + 1))
    } else if s[i] == '\\' {
        if i + 1 >= s.len() {
            None
        } else {
            match scan_value(s, i + 2) {
                Some((v, e)) => Some((unescape(s[i + 1]) + v, e)),
                None => None,
            }
        }
    } else {
        match scan_value(s, i + 1) {
            Some((v, e)) => Some((seq![s[i]] + v, e)),
            None => None,
        }
    }
}

pub open spec fn missing_key_message() -> Seq<char> {
    "Expected metadata key (identifier before ':')"@
}

pub open spec fn missing_colon_message(key: Seq<char>) -> Seq<char> {
    "Expected ':' after metadata key '"@ + key + "'"@
}

pub open spec fn missing_quote_message(key: Seq<char>) -> Seq<char> {
    "Expected '\"' to start value for key '"@ + key + "'"@
}

pub open spec fn unterminated_message(key: Seq<char>) -> Seq<char> {
    "Unterminated string value for key '"@ + key + "'"@
}

pub proof fn lemma_skip_ws_bounds(s: Seq<char>, i: int)
    requires
        0 <= i <= s.len(),
    ensures
        i <= skip_ws(s, i) <= s.len(),
        skip_ws(s, i) < s.len() ==> !is_white_space(s[skip_ws(s, i)]),
    decreases s.len() - i,
{
    if i < s.len() && is_white_space(s[i]) {
        lemma_skip_ws_bounds(s, i + 1);
    }
}

pub proof fn lemma_key_end_bounds(s: Seq<char>, i: int)
    requires
        0 <= i <= s.len(),
    ensures
        i <= key_end(s, i) <= s.len(),
        forall|j: int| i <= j < key_end(s, i) ==> is_key_char(#[trigger] s[j]),
        key_end(s, i) < s.len() ==> !is_key_char(s[key_end(s, i)]),
    decreases s.len() - i,
{
    if i < s.len() && is_key_char(s[i]) {
        lemma_key_end_bounds(s, i + 1);
    }
}

pub proof fn lemma_scan_value_bounds(s: Seq<char>, i: int)
    ensures
        scan_value(s, i) matches Some((v, e)) ==> 0 <= i < e <= s.len(),
    decreases s.len() - i,
{
    if 0 <= i < s.len() {
        if s[i] == '\\' {
            if i + 1 < s.len() {
                lemma_scan_value_bounds(s, i + 2);
            }
        } else if s[i] != '"' {
            lemma_scan_value_bounds(s, i + 1);
        }
    }
}

/// The entries of a metadata string read from position `i` on, in the order
/// they are written, or the message of the first error met.
pub open spec fn parse_entries(s: Seq<char>, i: int) -> Result<Seq<(Seq<char>, Seq<char>)>, Seq<char>>
    decreases s.len() - i,
{
    if i < 0 || i > s.len() {
        Ok(Seq::empty())
    } else {
        let a = skip_ws(s, i);
        if a >= s.len() {
            Ok(Seq::empty())
        } else {
            let b = key_end(s, a);
            let key = s.subrange(a, b);
            if b <= a {
                Err(missing_key_message())
            } else {
                let c = skip_ws(s, b);
                if c >= s.len() || s[c] != ':' {
                    Err(missing_colon_message(key))
                } else {
                    let d = skip_ws(s, c + 1);
                    if d >= s.len() || s[d] != '"' {
                        Err(missing_quote_message(key))
                    } else {
                        match scan_value(s, d + 1) {
                            None => Err(unterminated_message(key)),
                            Some((v, e)) => {
                                proof {
                                    lemma_skip_ws_bounds(s, i);
                                    lemma_key_end_bounds(s, a);
                                    lemma_skip_ws_bounds(s, b);
                                    lemma_skip_ws_bounds(s, c + 1);
                                    lemma_scan_value_bounds(s, d + 1);
                                }
                                match parse_entries(s, e) {
                                    Ok(rest) => Ok(seq![(key, v)] + rest),
                                    Err(m) => Err(m),
                                }
                            }
                        }
                    }
                }
            }
        }
    }
}

/// What a whole metadata string parses to: its entries in written order,
/// or the message of the first error.
pub open spec fn metadata_entries(raw: Seq<char>) -> Result<Seq<(Seq<char>, Seq<char>)>, Seq<char>> {
    parse_entries(raw, 0)
}

/// `acc` followed by what `r` holds, or the error of `r`.
pub open spec fn prepend_entries(
    acc: Seq<(Seq<char>, Seq<char>)>,
    r: Result<Seq<(Seq<char>, Seq<char>)>, Seq<char>>,
) -> Result<Seq<(Seq<char>, Seq<char>)>, Seq<char>> {
    match r {
        Ok(rest) => Ok(acc + rest),
        Err(m) => Err(m),
    }
}

fn skip_ws_exec(cs: &Vec<char>, i: usize) -> (r: usize)
    requires
        i <= cs@.len(),
    ensures
        r == skip_ws(cs@, i as int),
        i <= r <= cs@.len(),
{
    proof { lemma_skip_ws_bounds(cs@, i as int); }
    let mut j = i;
    while j < cs.len() && char_is_whitespace(cs[j])
        invariant
            i <= j <= cs@.len(),
            skip_ws(cs@, i as int) == skip_ws(cs@, j as int),
        decreases cs@.len() - j,
    {
        j = j + 1;
    }
    j
}

fn key_end_exec(cs: &Vec<char>, i: usize) -> (r: usize)
    requires
        i <= cs@.len(),
    ensures
        r == key_end(cs@, i as int),
        i <= r <= cs@.len(),
{
    proof { lemma_key_end_bounds(cs@, i as int); }
    let mut j = i;
    while j < cs.len() && (char_is_alphanumeric(cs[j]) || cs[j] == '_')
        invariant
            i <= j <= cs@.len(),
            key_end(cs@, i as int) == key_end(cs@, j as int),
        decreases cs@.len() - j,
    {
        j = j + 1;
    }
    j
}

fn push_unescaped(value: &mut String, c: char)
    ensures
        final(value)@ == old(value)@ + unescape(c),
{
    if c == 'n' {
        push_char(value, '\n');
    } else if c == 't' {
        push_char(value, '\t');
    } else if c == 'r' {
        push_char(value, '\r');
    } else if c == '\\' {
        push_char(value, '\\');
    } else if c == '"' {
        push_char(value, '"');
    } else {
        push_char(value, '\\');
        push_char(value, c);
    }
    assert(final(value)@ =~= old(value)@ + unescape(c));
}

fn scan_value_exec(cs: &Vec<char>, i: usize) -> (r: Option<(String, usize)>)
    requires
        i <= cs@.len(),
    ensures
        match r {
            Some((v, e)) => scan_value(cs@, i as int) == Some((v@, e as int)),
            None => scan_value(cs@, i as int) is None,
        },
{
    let mut value = String::new();
    let mut j = i;
    loop
        invariant
            i <= j <= cs@.len(),
            scan_value(cs@, i as int) == (match scan_value(cs@, j as int) {
                Some((v, e)) => Some((value@ + v, e)),
                None => None,
            }),
        decreases cs@.len() - j,
    {
        if j >= cs.len() {
            return None;
        }
        let c = cs[j];
        if c == '"' {
            assert(value@ + Seq::<char>::empty() =~= value@);
            return Some((value, j + 1));
        } else if c == '\\' {
            if j + 1 >= cs.len() {
                return None;
            }
            let ghost before = value@;
            push_unescaped(&mut value, cs[j + 1]);
            proof {
                match scan_value(cs@, j + 2) {
                    Some((v, e)) => {
                        assert(before + (unescape(cs@[j + 1]) + v) =~= value@ + v);
                    }
                    None => {}
                }
            }
            j = j + 2;
        } else {
            let ghost before = value@;
            push_char(&mut value, c);
            proof {
                match scan_value(cs@, j + 1) {
                    Some((v, e)) => {
                        assert(before + (seq![c] + v) =~= value@ + v);
                    }
                    None => {}
                }
            }
            j = j + 1;
        }
    }
}

/// Parses a metadata string such as `json:"id" db:"user_id"` into the map
/// from keys to values. Keys are runs of alphanumeric characters and
/// underscores; values are double-quoted, with `\n`, `\t`, `\r`, `\\` and
/// `\"` decoded. A key written twice keeps its last value.
pub fn parse_metadata(raw: &str) -> (r: Result<Metadata, String>)
    ensures
        match metadata_entries(raw@) {
            Ok(ps) => r matches Ok(m) && m@ == metadata_map(ps) && m.pairs() == metadata_pairs(ps),
            Err(msg) => r matches Err(e) && e@ == msg,
        },
{
    let cs = str_chars(raw);
    let mut metadata = Metadata::new();
    let mut i: usize = 0;
    let ghost mut acc: Seq<(Seq<char>, Seq<char>)> = Seq::empty();
    loop
        invariant
            cs@ == raw@,
            i <= cs@.len(),
            metadata_entries(raw@) == prepend_entries(acc, parse_entries(cs@, i as int)),
            metadata@ == metadata_map(acc),
            metadata.pairs() == metadata_pairs(acc),
        decreases cs@.len() - i,
    {
        let a = skip_ws_exec(&cs, i);
        if a >= cs.len() {
            assert(acc + Seq::<(Seq<char>, Seq<char>)>::empty() =~= acc);
            return Ok(metadata);
        }
        let b = key_end_exec(&cs, a);
        if b == a {
            return Err("Expected metadata key (identifier before ':')".to_owned());
        }
        let key = string_of_range(&cs, a, b);
        let c = skip_ws_exec(&cs, b);
        if c >= cs.len() || cs[c] != ':' {
            let m = concat_str(concat_str("Expected ':' after metadata key '", key.as_str()).as_str(), "'");
            return Err(m);
        }
        let d = skip_ws_exec(&cs, c + 1);
        if d >= cs.len() || cs[d] != '"' {
            let m = concat_str(concat_str("Expected '\"' to start value for key '", key.as_str()).as_str(), "'");
            return Err(m);
        }
        match scan_value_exec(&cs, d + 1) {
            None => {
                let m = concat_str(concat_str("Unterminated string value for key '", key.as_str()).as_str(), "'");
                return Err(m);
            }
            Some((v, e)) => {
                proof {
                    lemma_scan_value_bounds(cs@, d + 1);
                    let entry = (key@, v@);
                    let old_acc = acc;
                    acc = acc.push(entry);
                    match parse_entries(cs@, e as int) {
                        Ok(rest) => {
                            assert(old_acc + (seq![entry] + rest) =~= acc + rest);
                        }
                        Err(_) => {}
                    }
                    assert(acc.drop_last() =~= old_acc);
                }
                metadata.store(key, v);
                i = e;
            }
        }
    }
}

/// The characters `cs[from..to]` as a `String`.
fn string_of_range(cs: &Vec<char>, from: usize, to: usize) -> (r: String)
    requires
        from <= to <= cs@.len(),
    ensures
        r@ == cs@.subrange(from as int, to as int),
{
    let mut r = String::new();
    let mut j = from;
    while j < to
        invariant
            from <= j <= to <= cs@.len(),
            r@ == cs@.subrange(from as int, j as int),
        decreases to - j,
    {
        push_char(&mut r, cs[j]);
        assert(cs@.subrange(from as int, j + 1) =~= cs@.subrange(from as int, j as int).push(cs@[j as int]));
        j = j + 1;
    }
    r
}

} // verus!

verus! {

// ---------------------------------------------------------------------------
// Merging metadata
// ---------------------------------------------------------------------------

/// The keys of `ps`, in order, that `old` holds with a different value:
/// (key, old value, new value).
pub open spec fn merge_conflicts(
    old: Map<Seq<char>, Seq<char>>,
    ps: Seq<(Seq<char>, Seq<char>)>,
) -> Seq<(Seq<char>, Seq<char>, Seq<char>)>
    decreases ps.len(),
{
    if ps.len() == 0 {
        Seq::empty()
    } else {
        let prev = merge_conflicts(old, ps.drop_last());
        let k = ps.last().0;
        let v = ps.last().1;
        if old.dom().contains(k) && old[k] != v {
            prev.push((k, old[k], v))
        } else {
            prev
        }
    }
}

/// The character sequences of a list of string triples.
pub open spec fn triples_view(t: Seq<(String, String, String)>) -> Seq<(Seq<char>, Seq<char>, Seq<char>)> {
    t.map_values(|x: (String, String, String)| (x.0@, x.1@, x.2@))
}

/// Merges `new` into `old`: every key of `new` takes its new value, the
/// other keys of `old` stay. Also returns, in the order of `new`, each key
/// whose value changed, with its old and new value.
pub fn merge_metadata(old: &Metadata, new: &Metadata) -> (r: (Metadata, Vec<(String, String, String)>))
    ensures
        r.0@ == old@.union_prefer_right(new@),
        triples_view(r.1@) == merge_conflicts(old@, new.pairs()),
{
    let mut merged = old.duplicate();
    let mut conflicts: Vec<(String, String, String)> = Vec::new();
    let n = new.len();
    let mut i: usize = 0;
    while i < n
        invariant
            n == new.pairs().len(),
            i <= n,
            pairs_consistent(new@, new.pairs()),
            merged@ == old@.union_prefer_right(metadata_map(new.pairs().take(i as int))),
            triples_view(conflicts@) == merge_conflicts(old@, new.pairs().take(i as int)),
        decreases n - i,
    {
        let (k, v) = new.pair_at(i);
        let ghost ps = new.pairs();
        proof {
            lemma_metadata_map_unique(ps.take(i as int));
            if metadata_map(ps.take(i as int)).dom().contains(k@) {
                let j = choose|j: int| 0 <= j < ps.take(i as int).len() && ps.take(i as int)[j].0 == k@;
                assert(ps[j].0 == ps[i as int].0);
            }
        }
        assert(ps.take(i + 1) =~= ps.take(i as int).push(ps[i as int]));
        assert(ps.take(i + 1).drop_last() =~= ps.take(i as int));
        match merged.get(k.as_str()) {
            Some(ov) => {
                if !str_eq(ov.as_str(), v.as_str()) {
                    let ghost before = conflicts@;
                    conflicts.push((k.clone(), ov.clone(), v.clone()));
                    assert(triples_view(conflicts@) =~= triples_view(before).push((k@, ov@, v@)));
                }
            }
            None => {}
        }
        merged.insert(k.clone(), v.clone());
        assert(merged@ =~= old@.union_prefer_right(metadata_map(ps.take(i + 1))));
        i = i + 1;
    }
    proof {
        assert(new.pairs().take(n as int) =~= new.pairs());
        lemma_consistent_view(new@, new.pairs());
    }
    (merged, conflicts)
}

} // verus!

verus! {

// ---------------------------------------------------------------------------
// Writing metadata strings
// ---------------------------------------------------------------------------

/// A value as written between quotes: a backslash before every backslash
/// and every double quote.
pub open spec fn escaped(v: Seq<char>) -> Seq<char>
    decreases v.len(),
{
    if v.len() == 0 {
        Seq::empty()
    } else if v[0] == '\\' || v[0] == '"' {
        seq!['\\', v[0]] + escaped(v.drop_first())
    } else {
        seq![v[0]] + escaped(v.drop_first())
    }
}

/// One entry as written: `key:"value"`.
pub open spec fn entry_text(k: Seq<char>, v: Seq<char>) -> Seq<char> {
    k + seq![':', '"'] + escaped(v) + seq!['"']
}

/// Entries written in order, separated by single spaces.
pub open spec fn written(ps: Seq<(Seq<char>, Seq<char>)>) -> Seq<char>
    decreases ps.len(),
{
    if ps.len() == 0 {
        Seq::empty()
    } else if ps.len() == 1 {
        entry_text(ps[0].0, ps[0].1)
    } else {
        entry_text(ps[0].0, ps[0].1) + seq![' '] + written(ps.drop_first())
    }
}

/// A key that reads back as written: not empty, and made of key
/// characters.
pub open spec fn writable_key(k: Seq<char>) -> bool {
    k.len() > 0 && forall|j: int| 0 <= j < k.len() ==> is_key_char(#[trigger] k[j])
}

proof fn lemma_key_end_at(s: Seq<char>, a: int, k: Seq<char>, j: int)
    requires
        0 <= a,
        0 <= j <= k.len(),
        a + k.len() < s.len(),
        s.subrange(a, a + k.len()) == k,
        forall|l: int| 0 <= l < k.len() ==> is_key_char(#[trigger] k[l]),
        !is_key_char(s[a + k.len()]),
    ensures
        key_end(s, a + j) == a + k.len(),
    decreases k.len() - j,
{
    if j < k.len() {
        assert(s[a + j] == k[j]);
        lemma_key_end_at(s, a, k, j + 1);
    }
}

proof fn lemma_scan_escaped(s: Seq<char>, i: int, v: Seq<char>)
    requires
        0 <= i,
        i + escaped(v).len() < s.len(),
        s.subrange(i, i + escaped(v).len()) == escaped(v),
        s[i + escaped(v).len()] == '"',
    ensures
        scan_value(s, i) == Some((v, i + escaped(v).len() + 1)),
    decreases v.len(),
{
    if v.len() == 0 {
    } else {
        let r = escaped(v.drop_first());
        assert forall|l: int| 0 <= l < escaped(v).len() implies s[i + l] == #[trigger] escaped(v)[l] by {
            assert(s.subrange(i, i + escaped(v).len())[l] == s[i + l]);
        }
        if v[0] == '\\' || v[0] == '"' {
            assert(escaped(v) == seq!['\\', v[0]] + r);
            assert(escaped(v)[0] == '\\');
            assert(escaped(v)[1] == v[0]);
            assert(s[i] == '\\');
            assert(s[i + 1] == v[0]);
            assert(s.subrange(i + 2, i + 2 + r.len()) =~= r) by {
                assert forall|l: int| 0 <= l < r.len() implies s.subrange(i + 2, i + 2 + r.len())[l] == r[l] by {
                    assert(s[i + 2 + l] == escaped(v)[2 + l]);
                }
            }
            lemma_scan_escaped(s, i + 2, v.drop_first());
            assert(unescape(v[0]) == seq![v[0]]);
            assert(seq![v[0]] + v.drop_first() =~= v);
        } else {
            assert(escaped(v) == seq![v[0]] + r);
            assert(escaped(v)[0] == v[0]);
            assert(s[i] == v[0]);
            assert(s.subrange(i + 1, i + 1 + r.len()) =~= r) by {
                assert forall|l: int| 0 <= l < r.len() implies s.subrange(i + 1, i + 1 + r.len())[l] == r[l] by {
                    assert(s[i + 1 + l] == escaped(v)[1 + l]);
                }
            }
            lemma_scan_escaped(s, i + 1, v.drop_first());
            assert(seq![v[0]] + v.drop_first() =~= v);
        }
    }
}

proof fn lemma_parse_same_start(s: Seq<char>, i: int, j: int)
    requires
        0 <= i <= s.len(),
        0 <= j <= s.len(),
        skip_ws(s, i) == skip_ws(s, j),
    ensures
        parse_entries(s, i) == parse_entries(s, j),
{
}

/// Reading back entries written from position `i` on gives the entries.
pub proof fn lemma_parse_written(s: Seq<char>, i: int, ps: Seq<(Seq<char>, Seq<char>)>)
    requires
        0 <= i <= s.len(),
        s.subrange(i, s.len() as int) == written(ps),
        forall|l: int| 0 <= l < ps.len() ==> writable_key(#[trigger] ps[l].0),
    ensures
        parse_entries(s, i) == Ok::<Seq<(Seq<char>, Seq<char>)>, Seq<char>>(ps),
    decreases ps.len(),
{
    if ps.len() == 0 {
        assert(i == s.len());
        assert(ps =~= Seq::<(Seq<char>, Seq<char>)>::empty());
    } else {
        let k = ps[0].0;
        let v = ps[0].1;
        assert(writable_key(k));
        let t = entry_text(k, v);
        let w = written(ps);
        assert forall|l: int| 0 <= l < w.len() implies s[i + l] == #[trigger] w[l] by {
            assert(s.subrange(i, s.len() as int)[l] == s[i + l]);
        }
        if ps.len() == 1 {
            assert(w == t);
        } else {
            assert(w == t + seq![' '] + written(ps.drop_first()));
        }
        assert(w.subrange(0, t.len() as int) =~= t);
        assert forall|l: int| 0 <= l < t.len() implies s[i + l] == #[trigger] t[l] by {
            assert(w[l] == t[l]);
        }
        assert(t[0] == k[0]);
        assert(s[i] == t[0]);
        assert(is_key_char(k[0]));
        assert(!is_white_space(s[i]));
        assert(skip_ws(s, i) == i);
        let b = i + k.len();
        assert(s[b] == t[k.len() as int]);
        assert(s.subrange(i, b) =~= k);
        assert(s[b] == ':');
        assert(!is_key_char(':'));
        lemma_key_end_at(s, i, k, 0);
        assert(key_end(s, i) == b);
        assert(!is_white_space(':'));
        assert(skip_ws(s, b) == b);
        assert(t[k.len() + 1int] == '"');
        assert(s[b + 1] == t[k.len() + 1int]);
        assert(!is_white_space('"'));
        assert(skip_ws(s, b + 1) == b + 1);
        let ev = escaped(v);
        assert(s.subrange(b + 2, b + 2 + ev.len()) =~= ev) by {
            assert forall|l: int| 0 <= l < ev.len() implies s.subrange(b + 2, b + 2 + ev.len())[l] == ev[l] by {
                assert(s[b + 2 + l] == t[k.len() + 2 + l]);
            }
        }
        assert(s[b + 2 + ev.len()] == t[(k.len() + 2 + ev.len()) as int]);
        lemma_scan_escaped(s, b + 2, v);
        let e = b + 2 + ev.len() + 1;
        assert(e == i + t.len());
        if ps.len() == 1 {
            assert(w == t);
            assert(e == s.len());
            assert(parse_entries(s, e) == Ok::<Seq<(Seq<char>, Seq<char>)>, Seq<char>>(Seq::empty()));
            assert(seq![(k, v)] + Seq::<(Seq<char>, Seq<char>)>::empty() =~= ps);
            assert(parse_entries(s, i) == Ok::<Seq<(Seq<char>, Seq<char>)>, Seq<char>>(seq![(k, v)] + Seq::<(Seq<char>, Seq<char>)>::empty()));
        } else {
            let rest = ps.drop_first();
            assert(w == t + seq![' '] + written(rest));
            assert(w[t.len() as int] == ' ');
            assert(s[i + t.len()] == w[t.len() as int]);
            assert(s[e] == ' ');
            assert(is_white_space(' '));
            assert(s.subrange(e + 1, s.len() as int) =~= written(rest)) by {
                assert forall|l: int| 0 <= l < written(rest).len() implies s.subrange(e + 1, s.len() as int)[l] == written(rest)[l] by {
                    assert(s[e + 1 + l] == w[t.len() + 1 + l]);
                }
            }
            assert forall|l: int| 0 <= l < rest.len() implies writable_key(#[trigger] rest[l].0) by {
                assert(rest[l] == ps[l + 1]);
            }
            lemma_parse_written(s, e + 1, rest);
            let k2 = rest[0].0;
            assert(writable_key(k2));
            assert(written(rest).len() > 0 && written(rest)[0] == k2[0]) by {
                if rest.len() == 1 {
                    assert(written(rest) == entry_text(k2, rest[0].1));
                } else {
                    assert(written(rest) == entry_text(k2, rest[0].1) + seq![' '] + written(rest.drop_first()));
                }
            }
            assert(s[e + 1] == k2[0]);
            assert(is_key_char(k2[0]));
            assert(skip_ws(s, e + 1) == e + 1);
            assert(skip_ws(s, e) == skip_ws(s, e + 1));
            lemma_parse_same_start(s, e, e + 1);
            assert(seq![(k, v)] + rest =~= ps);
            assert(parse_entries(s, i) == Ok::<Seq<(Seq<char>, Seq<char>)>, Seq<char>>(seq![(k, v)] + rest));
        }
    }
}

} // verus!
