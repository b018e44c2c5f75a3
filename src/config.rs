//! Display configuration: the alias map that turns free-text shift labels into
//! canonical codes, the label map that names codes, and the rules that apply them.
use vstd::prelude::*;

use crate::text::{
    first_word, first_word_of, first_word_or_all, lower_of, str_eq, to_lower, to_upper, trim,
    trimmed, upper_of,
};

verus! {

/// A string-keyed map held as a list of pairs with distinct keys.
pub struct TextMap {
    entries: Vec<(String, String)>,
}

/// Whether position `i` of `entries` holds the key `k`.
pub open spec fn key_at(entries: Seq<(String, String)>, i: int, k: Seq<char>) -> bool {
    0 <= i < entries.len() && entries[i].0@ == k
}

impl View for TextMap {
    type V = Map<Seq<char>, Seq<char>>;

    closed spec fn view(&self) -> Map<Seq<char>, Seq<char>> {
        Map::new(
            |k: Seq<char>| exists|i: int| key_at(self.entries@, i, k),
            |k: Seq<char>| self.entries@[choose|i: int| key_at(self.entries@, i, k)].1@,
        )
    }
}

/// Position of the key `k` in `entries`, if present.
fn find_key(entries: &Vec<(String, String)>, k: &str) -> (r: Option<usize>)
    ensures
        r matches Some(i) ==> key_at(entries@, i as int, k@),
        r is None ==> forall|i: int| !key_at(entries@, i, k@),
{
    let mut i: usize = 0;
    while i < entries.len()
        invariant
            i <= entries@.len(),
            forall|j: int| 0 <= j < i ==> !key_at(entries@, j, k@),
        decreases entries@.len() - i,
    {
        if str_eq(entries[i].0.as_str(), k) {
            return Some(i);
        }
        i = i + 1;
    }
    None
}

impl TextMap {
    #[verifier::type_invariant]
    spec fn keys_distinct(self) -> bool {
        forall|i: int, j: int|
            0 <= i < self.entries@.len() && 0 <= j < self.entries@.len() && i != j
                ==> self.entries@[i].0@ != self.entries@[j].0@
    }

    /// An empty map.
    pub fn new() -> (r: Self)
        ensures
            r@ == Map::<Seq<char>, Seq<char>>::empty(),
    {
        let r = TextMap { entries: Vec::new() };
        assert(r@ =~= Map::<Seq<char>, Seq<char>>::empty());
        r
    }

    /// Number of keys.
    pub fn len(&self) -> (r: usize)
        ensures
            r == self@.dom().len(),
    {
        proof {
            use_type_invariant(self);
            self.lemma_dom_len();
        }
        self.entries.len()
    }

    proof fn lemma_dom_len(&self)
        requires
            self.keys_distinct(),
        ensures
            self@.dom().len() == self.entries@.len(),
            self@.dom().finite(),
    {
        let keys = self.entries@.map_values(|e: (String, String)| e.0@);
        assert(self@.dom() =~= keys.to_set()) by {
            assert forall|k: Seq<char>| self@.dom().contains(k) implies keys.to_set().contains(k) by {
                let i = choose|i: int| key_at(self.entries@, i, k);
                assert(keys[i] == k);
            }
            assert forall|k: Seq<char>| keys.to_set().contains(k) implies self@.dom().contains(k) by {
                let i = choose|i: int| 0 <= i < keys.len() && keys[i] == k;
                assert(key_at(self.entries@, i, k));
            }
        }
        assert(keys.no_duplicates());
        keys.unique_seq_to_set();
    }

    proof fn lemma_value_at(&self, i: int)
        requires
            self.keys_distinct(),
            0 <= i < self.entries@.len(),
        ensures
            self@.contains_key(self.entries@[i].0@),
            self@[self.entries@[i].0@] == self.entries@[i].1@,
    {
        assert(key_at(self.entries@, i, self.entries@[i].0@));
    }

    /// The value stored under `k`.
    pub fn get(&self, k: &str) -> (r: Option<&String>)
        ensures
            r matches Some(v) ==> self@.contains_key(k@) && v@ == self@[k@],
            r is None ==> !self@.contains_key(k@),
    {
        proof {
            use_type_invariant(self);
        }
        match find_key(&self.entries, k) {
            Some(i) => {
                proof {
                    self.lemma_value_at(i as int);
                }
                Some(&self.entries[i].1)
            },
            None => None,
        }
    }

    /// Stores `v` under `k`, replacing any earlier value.
    pub fn insert(&mut self, k: String, v: String)
        ensures
            final(self)@ == old(self)@.insert(k@, v@),
    {
        proof {
            use_type_invariant(&*self);
        }
        let ghost before = *self;
        let mut entries: Vec<(String, String)> = Vec::new();
        std::mem::swap(&mut entries, &mut self.entries);
        let ghost old_entries = entries@;
        assert(old_entries == before.entries@);
        let ghost key = k@;
        let ghost val = v@;
        let found = find_key(&entries, k.as_str());
        match found {
            Some(i) => {
                entries.set(i, (k, v));
            },
            None => {
                entries.push((k, v));
            },
        }
        proof {
            let ne = entries@;
            assert forall|a: int, b: int|
                0 <= a < ne.len() && 0 <= b < ne.len() && a != b implies ne[a].0@ != ne[b].0@ by {
                if found is None {
                    if a == old_entries.len() {
                        assert(!key_at(old_entries, b, key));
                    } else if b == old_entries.len() {
                        assert(!key_at(old_entries, a, key));
                    }
                } else {
                    let fi = found->0 as int;
                    assert(key_at(old_entries, fi, key));
                }
            }
        }
        self.entries = entries;
        proof {
            let ne = self.entries@;
            assert forall|x: Seq<char>| #![auto]
                self@.contains_key(x) == before@.insert(key, val).contains_key(x) by {
                if x == key {
                    if exists|i: int| key_at(old_entries, i, key) {
                        let i = choose|i: int| key_at(old_entries, i, key);
                        assert(key_at(ne, i, key));
                    } else {
                        assert(key_at(ne, ne.len() - 1, key));
                    }
                } else {
                    if exists|i: int| key_at(ne, i, x) {
                        let i = choose|i: int| key_at(ne, i, x);
                        assert(key_at(old_entries, i, x));
                    }
                    if exists|i: int| key_at(old_entries, i, x) {
                        let i = choose|i: int| key_at(old_entries, i, x);
                        assert(key_at(ne, i, x));
                    }
                }
            }
            assert forall|x: Seq<char>| #[trigger] self@.contains_key(x) implies self@[x]
                == before@.insert(key, val)[x] by {
                let i = choose|i: int| key_at(ne, i, x);
                assert(self.keys_distinct());
                self.lemma_value_at(i);
                if x != key {
                    assert(key_at(old_entries, i, x));
                    before.lemma_value_at(i);
                    assert(ne[i] == old_entries[i]);
                } else {
                    match found {
                        Some(fi) => {
                            assert(key_at(ne, fi as int, key));
                            assert(i == fi);
                        },
                        None => {
                            assert(key_at(ne, ne.len() - 1, key));
                            assert(i == ne.len() - 1);
                        },
                    }
                }
            }
            assert(self@ =~= before@.insert(key, val));
        }
    }

    /// The stored pairs, each key once.
    pub fn pairs(&self) -> (r: &Vec<(String, String)>)
        ensures
            forall|i: int| 0 <= i < r@.len() ==> self@.contains_key(#[trigger] r@[i].0@)
                && self@[r@[i].0@] == r@[i].1@,
            r@.len() == self@.dom().len(),
    {
        proof {
            use_type_invariant(self);
            self.lemma_dom_len();
            assert forall|i: int| 0 <= i < self.entries@.len() implies self@.contains_key(
                #[trigger] self.entries@[i].0@,
            ) && self@[self.entries@[i].0@] == self.entries@[i].1@ by {
                self.lemma_value_at(i);
            }
        }
        &self.entries
    }
}

/// The display configuration as read from its JSON document: alias and label
/// pairs in document order.
pub struct RawShiftDisplayConfig {
    pub aliases: Vec<(String, String)>,
    pub labels: Vec<(String, String)>,
}

/// A conditional underline rule: a shift code and the weekdays it applies to.
pub struct ConditionalUnderline {
    pub shift_code: String,
    pub weekdays: Vec<u8>,
}

/// Styling configuration; carried to the front end unchanged.
pub struct ShiftStylingConfig {
    pub conditional_underline: Option<ConditionalUnderline>,
}

impl Default for ShiftStylingConfig {
    fn default() -> (r: Self)
        ensures
            r.conditional_underline is None,
    {
        ShiftStylingConfig { conditional_underline: None }
    }
}

/// The resolved display configuration: lowercase alias keys mapped to codes,
/// and label keys (in original, upper and lower case) mapped to display labels.
pub struct ShiftDisplayConfig {
    pub alias_map: TextMap,
    pub label_map: TextMap,
}

impl Default for ShiftDisplayConfig {
    fn default() -> (r: Self)
        ensures
            r.alias_map@ == Map::<Seq<char>, Seq<char>>::empty(),
            r.label_map@ == Map::<Seq<char>, Seq<char>>::empty(),
    {
        ShiftDisplayConfig { alias_map: TextMap::new(), label_map: TextMap::new() }
    }
}

/// The alias map built from raw pairs: keys trimmed and lowercased, values
/// trimmed, pairs with an empty side dropped, later pairs overriding earlier ones.
pub open spec fn alias_map_of(pairs: Seq<(String, String)>) -> Map<Seq<char>, Seq<char>>
    decreases pairs.len(),
{
    if pairs.len() == 0 {
        Map::empty()
    } else {
        let prev = alias_map_of(pairs.drop_last());
        let k = lower_of(trimmed(pairs.last().0@));
        let v = trimmed(pairs.last().1@);
        if k.len() == 0 || v.len() == 0 {
            prev
        } else {
            prev.insert(k, v)
        }
    }
}

/// The label map built from raw pairs: each trimmed key is stored as written,
/// uppercased and lowercased, with the trimmed label; pairs with an empty side
/// are dropped, later pairs override earlier ones.
pub open spec fn label_map_of(pairs: Seq<(String, String)>) -> Map<Seq<char>, Seq<char>>
    decreases pairs.len(),
{
    if pairs.len() == 0 {
        Map::empty()
    } else {
        let prev = label_map_of(pairs.drop_last());
        let k = trimmed(pairs.last().0@);
        let v = trimmed(pairs.last().1@);
        if k.len() == 0 || v.len() == 0 {
            prev
        } else {
            prev.insert(k, v).insert(upper_of(k), v).insert(lower_of(k), v)
        }
    }
}

/// Canonical form of a token under an alias map: the alias of the whole
/// trimmed token, else the alias of its first word, else the trimmed token.
pub open spec fn normalized(aliases: Map<Seq<char>, Seq<char>>, input: Seq<char>) -> Seq<char> {
    let t = trimmed(input);
    if t.len() == 0 {
        Seq::empty()
    } else if aliases.contains_key(lower_of(t)) {
        aliases[lower_of(t)]
    } else {
        match first_word(t) {
            Some(w) => {
                let ck = lower_of(trimmed(w));
                if aliases.contains_key(ck) {
                    aliases[ck]
                } else {
                    t
                }
            },
            None => t,
        }
    }
}

/// The label configured for a key: looked up as trimmed, then uppercased,
/// then lowercased; none for a blank key.
pub open spec fn override_of(labels: Map<Seq<char>, Seq<char>>, key: Seq<char>) -> Option<
    Seq<char>,
> {
    let t = trimmed(key);
    if t.len() == 0 {
        None
    } else if labels.contains_key(t) {
        Some(labels[t])
    } else if labels.contains_key(upper_of(t)) {
        Some(labels[upper_of(t)])
    } else if labels.contains_key(lower_of(t)) {
        Some(labels[lower_of(t)])
    } else {
        None
    }
}

/// The display label of a code whose shift was written `raw`: an override for
/// the code, else for the normalised raw text, else for the raw text itself,
/// else the normalised raw text, else the code.
pub open spec fn label_of(
    aliases: Map<Seq<char>, Seq<char>>,
    labels: Map<Seq<char>, Seq<char>>,
    code: Seq<char>,
    raw: Seq<char>,
) -> Seq<char> {
    let n = normalized(aliases, raw);
    if override_of(labels, code) is Some {
        override_of(labels, code)->0
    } else if override_of(labels, n) is Some {
        override_of(labels, n)->0
    } else if override_of(labels, raw) is Some {
        override_of(labels, raw)->0
    } else if n.len() == 0 {
        code
    } else {
        n
    }
}

/// The shift code of an alias such as `RATM 8:00AM - 2:00PM`: its first word,
/// normalised, or the word itself when normalisation leaves nothing.
pub open spec fn code_of(aliases: Map<Seq<char>, Seq<char>>, alias: Seq<char>) -> Seq<char> {
    let token = trimmed(first_word_or_all(alias));
    let n = normalized(aliases, token);
    if n.len() == 0 {
        token
    } else {
        n
    }
}

impl ShiftDisplayConfig {
    /// Builds the resolved maps from the raw document pairs.
    pub fn from_raw(raw: RawShiftDisplayConfig) -> (r: Self)
        ensures
            r.alias_map@ == alias_map_of(raw.aliases@),
            r.label_map@ == label_map_of(raw.labels@),
    {
        let mut alias_map = TextMap::new();
        let mut i: usize = 0;
        while i < raw.aliases.len()
            invariant
                i <= raw.aliases@.len(),
                alias_map@ == alias_map_of(raw.aliases@.take(i as int)),
            decreases raw.aliases@.len() - i,
        {
            proof {
                assert(raw.aliases@.take(i + 1).drop_last() =~= raw.aliases@.take(i as int));
            }
            let key = to_lower(trim(raw.aliases[i].0.as_str()));
            let value = trim(raw.aliases[i].1.as_str());
            if !key.as_str().is_empty() && !value.is_empty() {
                alias_map.insert(key, String::from_str(value));
            }
            i = i + 1;
        }
        let mut label_map = TextMap::new();
        let mut j: usize = 0;
        while j < raw.labels.len()
            invariant
                j <= raw.labels@.len(),
                label_map@ == label_map_of(raw.labels@.take(j as int)),
            decreases raw.labels@.len() - j,
        {
            proof {
                assert(raw.labels@.take(j + 1).drop_last() =~= raw.labels@.take(j as int));
            }
            let key = trim(raw.labels[j].0.as_str());
            let value = trim(raw.labels[j].1.as_str());
            if !key.is_empty() && !value.is_empty() {
                label_map.insert(String::from_str(key), String::from_str(value));
                label_map.insert(to_upper(key), String::from_str(value));
                label_map.insert(to_lower(key), String::from_str(value));
            }
            j = j + 1;
        }
        proof {
            assert(raw.aliases@.take(raw.aliases@.len() as int) =~= raw.aliases@);
            assert(raw.labels@.take(raw.labels@.len() as int) =~= raw.labels@);
        }
        ShiftDisplayConfig { alias_map, label_map }
    }

    /// Canonical form of a token: its alias when the whole trimmed token, or
    /// its first word, has one (matched case-insensitively); else the trimmed token.
    pub fn normalize_token(&self, input: &str) -> (r: String)
        ensures
            r@ == normalized(self.alias_map@, input@),
    {
        let trimmed_input = trim(input);
        if trimmed_input.is_empty() {
            return String::new();
        }
        let lookup_key = to_lower(trimmed_input);
        if let Some(value) = self.alias_map.get(lookup_key.as_str()) {
            return value.clone();
        }
        if let Some(first_chunk) = first_word_of(trimmed_input) {
            let chunk_key = to_lower(trim(first_chunk));
            if let Some(value) = self.alias_map.get(chunk_key.as_str()) {
                return value.clone();
            }
        }
        String::from_str(trimmed_input)
    }

    /// The configured label for `key`, looked up as trimmed, uppercased and
    /// lowercased in turn; none for a blank key.
    pub fn label_override(&self, key: &str) -> (r: Option<String>)
        ensures
            r matches Some(v) ==> override_of(self.label_map@, key@) == Some(v@),
            r is None ==> override_of(self.label_map@, key@) is None,
    {
        let trimmed_key = trim(key);
        if trimmed_key.is_empty() {
            return None;
        }
        if let Some(v) = self.label_map.get(trimmed_key) {
            return Some(v.clone());
        }
        let upper = to_upper(trimmed_key);
        if let Some(v) = self.label_map.get(upper.as_str()) {
            return Some(v.clone());
        }
        let lower = to_lower(trimmed_key);
        if let Some(v) = self.label_map.get(lower.as_str()) {
            return Some(v.clone());
        }
        None
    }

    /// The display label for `code`, whose shift was written `raw_label`.
    pub fn resolve_label(&self, code: &str, raw_label: &str) -> (r: String)
        ensures
            r@ == label_of(self.alias_map@, self.label_map@, code@, raw_label@),
    {
        if let Some(label) = self.label_override(code) {
            return label;
        }
        let normalized_label = self.normalize_token(raw_label);
        if let Some(label) = self.label_override(normalized_label.as_str()) {
            return label;
        }
        if let Some(label) = self.label_override(raw_label) {
            return label;
        }
        if normalized_label.as_str().is_empty() {
            return String::from_str(code);
        }
        normalized_label
    }
}

/// The shift code of an alias: its first word, normalised through the alias
/// map, or the bare word when normalisation leaves nothing.
pub fn extract_shift_code(alias: &str, config: &ShiftDisplayConfig) -> (r: String)
    ensures
        r@ == code_of(config.alias_map@, alias@),
{
    let word = match first_word_of(alias) {
        Some(w) => w,
        None => alias,
    };
    let token = trim(word);
    let normalised = config.normalize_token(token);
    if normalised.as_str().is_empty() {
        return String::from_str(token);
    }
    normalised
}

/// An override configured for the canonical code wins over every override of
/// the raw shift text.
pub proof fn lemma_code_override_wins(
    aliases: Map<Seq<char>, Seq<char>>,
    labels: Map<Seq<char>, Seq<char>>,
    code: Seq<char>,
    raw: Seq<char>,
)
    requires
        override_of(labels, code) is Some,
    ensures
        label_of(aliases, labels, code, raw) == override_of(labels, code)->0,
{
}

} // verus!
