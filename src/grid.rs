//! The month grid: people × days, each cell the codes of the shifts worked
//! that day, plus the sorted set of codes and their display labels.
use vstd::prelude::*;

use crate::calendar::{
    days_in_month, digit_char, digit_val, digit_value, is_digit, month_length, month_of, valid_ym,
    year_of,
};
use crate::config::{code_of, extract_shift_code, label_of, ShiftDisplayConfig, TextMap};
use crate::text::{
    after_last, count_of, first_word, first_word_of, join_with, lemma_lex_irreflexive, lemma_lex_total,
    lemma_lex_transitive, lex_lt, str_eq, str_lt, trim, trimmed,
};

verus! {

/// One shift record as read from the upstream schedule.
pub struct RawShift {
    /// Start as `YYYY-MM-DD HH:MM:SS`.
    pub start_time: String,
    /// Free-text shift label, such as `RATM 8:00AM - 2:00PM`.
    pub alias: String,
    pub user_id: Option<u64>,
    pub first_name: Option<String>,
    pub last_name: Option<String>,
}

/// A person of the grid: one row.
pub struct Person {
    pub id: String,
    pub name: String,
}

/// The month grid handed to the front end.
pub struct MonthShifts {
    pub ym: String,
    /// Sorted by id, each id once.
    pub people: Vec<Person>,
    /// `rows[p][d]`: codes of person `p` on day `d + 1`, in input order.
    pub rows: Vec<Vec<Option<Vec<String>>>>,
    /// Every code seen, sorted, each once.
    pub codes: Vec<String>,
    /// Display label of each code.
    pub shift_names: TextMap,
}

/// Decimal text of a natural number.
pub open spec fn decimal(n: nat) -> Seq<char>
    decreases n,
{
    if n < 10 {
        seq![digit_char(n)]
    } else {
        decimal(n / 10).push(digit_char(n % 10))
    }
}

/// Relies on `u64`'s `Display` (through `to_string`): plain decimal digits.
#[verifier::external_body]
fn u64_text(n: u64) -> (r: String)
    ensures
        r@ == decimal(n as nat),
{
    n.to_string()
}

pub open spec fn unknown_text() -> Seq<char> {
    seq!['U', 'n', 'k', 'n', 'o', 'w', 'n']
}

/// The first name of a shift's person, `Unknown` when absent.
pub open spec fn first_name_text(s: RawShift) -> Seq<char> {
    match s.first_name {
        Some(f) => f@,
        None => unknown_text(),
    }
}

/// The last name of a shift's person, empty when absent.
pub open spec fn last_name_text(s: RawShift) -> Seq<char> {
    match s.last_name {
        Some(l) => l@,
        None => Seq::empty(),
    }
}

/// The person id of a shift: the user id in decimal, else `first_last`.
pub open spec fn person_id_of(s: RawShift) -> Seq<char> {
    match s.user_id {
        Some(n) => decimal(n as nat),
        None => first_name_text(s) + seq!['_'] + last_name_text(s),
    }
}

/// The display name of a shift's person: `first last`, trimmed.
pub open spec fn person_name_of(s: RawShift) -> Seq<char> {
    trimmed(first_name_text(s) + seq![' '] + last_name_text(s))
}

/// Value of a run of decimal digits.
pub open spec fn digits_value(s: Seq<char>) -> nat
    decreases s.len(),
{
    if s.len() == 0 {
        0
    } else {
        digits_value(s.drop_last()) * 10 + digit_val(s.last())->0
    }
}

pub open spec fn all_digits(s: Seq<char>) -> bool {
    forall|i: int| 0 <= i < s.len() ==> is_digit(#[trigger] s[i])
}

/// The text after an optional leading `+`.
pub open spec fn unsigned_digits(s: Seq<char>) -> Seq<char> {
    if s.len() > 0 && s[0] == '+' {
        s.drop_first()
    } else {
        s
    }
}

/// `usize`'s reading of a text: an optional `+`, then one or more decimal
/// digits whose value fits.
pub open spec fn parsed_usize(s: Seq<char>) -> Option<nat> {
    let d = unsigned_digits(s);
    if d.len() > 0 && all_digits(d) && digits_value(d) <= usize::MAX {
        Some(digits_value(d))
    } else {
        None
    }
}

/// Day of month of a `YYYY-MM-DD HH:MM:SS` text: the date part must split on
/// `-` into exactly three fields, the third of which reads as a number.
pub open spec fn day_of(datetime: Seq<char>) -> Option<nat> {
    match first_word(datetime) {
        Some(w) => if count_of(w, '-') == 2 {
            parsed_usize(after_last(w, '-'))
        } else {
            None
        },
        None => None,
    }
}

proof fn lemma_digits_value_grows(s: Seq<char>, j: int)
    requires
        0 <= j <= s.len(),
        all_digits(s),
    ensures
        digits_value(s.take(j)) <= digits_value(s),
    decreases s.len(),
{
    if j < s.len() {
        assert(all_digits(s.drop_last())) by {
            assert forall|i: int| 0 <= i < s.drop_last().len() implies is_digit(
                #[trigger] s.drop_last()[i],
            ) by {
                assert(s.drop_last()[i] == s[i]);
            }
        }
        lemma_digits_value_grows(s.drop_last(), j);
        assert(s.drop_last().take(j) =~= s.take(j));
    } else {
        assert(s.take(j) =~= s);
    }
}

/// Reads a `usize` as `str::parse` does.
pub fn parse_usize(s: &str) -> (r: Option<usize>)
    ensures
        r matches Some(v) ==> parsed_usize(s@) == Some(v as nat),
        r is None ==> parsed_usize(s@) is None,
{
    let n = s.unicode_len();
    let start: usize = if n > 0 && s.get_char(0) == '+' {
        1
    } else {
        0
    };
    let ghost d = unsigned_digits(s@);
    assert(d =~= s@.subrange(start as int, n as int));
    if start == n {
        return None;
    }
    let mut i: usize = start;
    let mut acc: usize = 0;
    let mut overflow = false;
    while i < n
        invariant
            start <= i <= n,
            n == s@.len(),
            d =~= s@.subrange(start as int, n as int),
            d == unsigned_digits(s@),
            all_digits(d.take(i - start)),
            !overflow ==> acc as nat == digits_value(d.take(i - start)),
            overflow ==> digits_value(d.take(i - start)) > usize::MAX,
        decreases n - i,
    {
        let c = s.get_char(i);
        let dv = digit_value(c);
        let ghost prev = d.take(i - start);
        assert(d.take(i - start + 1).drop_last() =~= prev);
        assert(d.take(i - start + 1).last() == c);
        match dv {
            None => {
                assert(!is_digit(d[i - start]));
                assert(!all_digits(d));
                return None;
            },
            Some(v) => {
                assert(all_digits(d.take(i - start + 1))) by {
                    assert forall|k: int| 0 <= k < d.take(i - start + 1).len() implies is_digit(
                        #[trigger] d.take(i - start + 1)[k],
                    ) by {
                        if k < i - start {
                            assert(d.take(i - start + 1)[k] == prev[k]);
                        }
                    }
                }
                if !overflow {
                    if acc > (usize::MAX - v as usize) / 10 {
                        overflow = true;
                        assert(acc * 10 + v > usize::MAX) by (nonlinear_arith)
                            requires
                                acc > (usize::MAX - v) / 10,
                                v <= 9,
                        ;
                    } else {
                        assert(acc * 10 + v <= usize::MAX) by (nonlinear_arith)
                            requires
                                acc <= (usize::MAX - v) / 10,
                                v <= 9,
                        ;
                        acc = acc * 10 + v as usize;
                    }
                } else {
                    assert(digits_value(prev) * 10 + v >= digits_value(prev)) by (nonlinear_arith);
                }
            },
        }
        i = i + 1;
    }
    assert(d.take(n - start) =~= d);
    if overflow {
        None
    } else {
        Some(acc)
    }
}

/// Day of month of a `YYYY-MM-DD HH:MM:SS` start time, when its date part has
/// three dash-separated fields and the third reads as a number.
pub fn extract_day_from_datetime(datetime: &str) -> (r: Option<usize>)
    ensures
        r matches Some(v) ==> day_of(datetime@) == Some(v as nat),
        r is None ==> day_of(datetime@) is None,
{
    let word = match first_word_of(datetime) {
        Some(w) => w,
        None => {
            return None;
        },
    };
    let n = word.unicode_len();
    let mut i: usize = 0;
    let mut dashes: usize = 0;
    let mut tail_start: usize = 0;
    while i < n
        invariant
            i <= n,
            n == word@.len(),
            tail_start <= i,
            dashes <= i,
            dashes == count_of(word@.take(i as int), '-'),
            after_last(word@.take(i as int), '-') =~= word@.subrange(tail_start as int, i as int),
        decreases n - i,
    {
        assert(word@.take(i + 1).drop_last() =~= word@.take(i as int));
        if word.get_char(i) == '-' {
            dashes = dashes + 1;
            tail_start = i + 1;
        }
        i = i + 1;
    }
    assert(word@.take(n as int) =~= word@);
    if dashes != 2 {
        return None;
    }
    parse_usize(word.substring_char(tail_start, n))
}

/// The name part used for a person: the given name or `Unknown`.
fn first_name_or_unknown(shift: &RawShift) -> (r: String)
    ensures
        r@ == first_name_text(*shift),
{
    match &shift.first_name {
        Some(f) => f.clone(),
        None => {
            let r = String::from_str("Unknown");
            proof {
                reveal_strlit("Unknown");
            }
            r
        },
    }
}

fn last_name_or_empty(shift: &RawShift) -> (r: String)
    ensures
        r@ == last_name_text(*shift),
{
    match &shift.last_name {
        Some(l) => l.clone(),
        None => String::new(),
    }
}

/// The person id of a shift: the user id in decimal, else `first_last`.
pub fn person_id(shift: &RawShift) -> (r: String)
    ensures
        r@ == person_id_of(*shift),
{
    match shift.user_id {
        Some(n) => u64_text(n),
        None => {
            let first = first_name_or_unknown(shift);
            let last = last_name_or_empty(shift);
            let r = join_with(first.as_str(), "_", last.as_str());
            proof {
                reveal_strlit("_");
            }
            r
        },
    }
}

/// The display name of a shift's person: `first last`, trimmed.
pub fn person_name(shift: &RawShift) -> (r: String)
    ensures
        r@ == person_name_of(*shift),
{
    let first = first_name_or_unknown(shift);
    let last = last_name_or_empty(shift);
    let full = join_with(first.as_str(), " ", last.as_str());
    proof {
        reveal_strlit(" ");
        assert(full@ =~= first@ + seq![' '] + last@);
    }
    String::from_str(trim(full.as_str()))
}

/// Texts of a sequence of people's ids.
pub open spec fn ids_of(p: Seq<Person>) -> Seq<Seq<char>> {
    p.map_values(|q: Person| q.id@)
}

/// Texts of a sequence of strings.
pub open spec fn texts_of(v: Seq<String>) -> Seq<Seq<char>> {
    v.map_values(|t: String| t@)
}

/// Each text strictly below every later one (so sorted, each text once).
pub open spec fn strictly_sorted(s: Seq<Seq<char>>) -> bool {
    forall|i: int, j: int| 0 <= i < j < s.len() ==> lex_lt(s[i], s[j])
}

/// Whether some shift of `ss` belongs to the person `id`.
pub open spec fn has_person(ss: Seq<RawShift>, id: Seq<char>) -> bool
    decreases ss.len(),
{
    ss.len() > 0 && (has_person(ss.drop_last(), id) || person_id_of(ss.last()) == id)
}

/// The name that the first shift of person `id` in `ss` gives.
pub open spec fn first_name_for(ss: Seq<RawShift>, id: Seq<char>) -> Seq<char>
    decreases ss.len(),
{
    if ss.len() == 0 {
        Seq::empty()
    } else if has_person(ss.drop_last(), id) {
        first_name_for(ss.drop_last(), id)
    } else {
        person_name_of(ss.last())
    }
}

/// Whether some shift of `ss` has the code `c`.
pub open spec fn has_code(aliases: Map<Seq<char>, Seq<char>>, ss: Seq<RawShift>, c: Seq<char>) -> bool
    decreases ss.len(),
{
    ss.len() > 0 && (has_code(aliases, ss.drop_last(), c) || code_of(aliases, ss.last().alias@)
        == c)
}

/// Code labels: for each non-empty code, the label resolved from the last
/// shift of `ss` that has it.
pub open spec fn names_of(
    aliases: Map<Seq<char>, Seq<char>>,
    labels: Map<Seq<char>, Seq<char>>,
    ss: Seq<RawShift>,
) -> Map<Seq<char>, Seq<char>>
    decreases ss.len(),
{
    if ss.len() == 0 {
        Map::empty()
    } else {
        let prev = names_of(aliases, labels, ss.drop_last());
        let c = code_of(aliases, ss.last().alias@);
        if c.len() == 0 {
            prev
        } else {
            prev.insert(c, label_of(aliases, labels, c, ss.last().alias@))
        }
    }
}

/// The codes of the shifts of `ss` that person `id` works on day `day`, in order.
pub open spec fn cell_codes(
    aliases: Map<Seq<char>, Seq<char>>,
    ss: Seq<RawShift>,
    id: Seq<char>,
    day: nat,
) -> Seq<Seq<char>>
    decreases ss.len(),
{
    if ss.len() == 0 {
        Seq::empty()
    } else {
        let prev = cell_codes(aliases, ss.drop_last(), id, day);
        if person_id_of(ss.last()) == id && day_of(ss.last().start_time@) == Some(day) {
            prev.push(code_of(aliases, ss.last().alias@))
        } else {
            prev
        }
    }
}

/// A grid cell as its list of codes.
pub open spec fn cell_view(c: Option<Vec<String>>) -> Option<Seq<Seq<char>>> {
    match c {
        Some(v) => Some(texts_of(v@)),
        None => None,
    }
}

/// The cell expected for a list of codes: none when it is empty.
pub open spec fn cell_of(codes: Seq<Seq<char>>) -> Option<Seq<Seq<char>>> {
    if codes.len() == 0 {
        None
    } else {
        Some(codes)
    }
}

pub open spec fn opt_nat(o: Option<usize>) -> Option<nat> {
    match o {
        Some(v) => Some(v as nat),
        None => None,
    }
}

proof fn lemma_sorted_distinct(s: Seq<Seq<char>>, i: int, j: int)
    requires
        strictly_sorted(s),
        0 <= i < s.len(),
        0 <= j < s.len(),
        i != j,
    ensures
        s[i] != s[j],
{
    lemma_lex_irreflexive(s[i], 0);
    if i < j {
        assert(lex_lt(s[i], s[j]));
    } else {
        assert(lex_lt(s[j], s[i]));
    }
}

/// Where the scan for `x` in a sorted list stopped and found no equal: `x`
/// is absent, and inserting it there keeps the list sorted.
proof fn lemma_sorted_slot(s: Seq<Seq<char>>, x: Seq<char>, pos: int)
    requires
        strictly_sorted(s),
        0 <= pos <= s.len(),
        forall|j: int| 0 <= j < pos ==> lex_lt(#[trigger] s[j], x),
        pos < s.len() ==> !lex_lt(s[pos], x),
        !(pos < s.len() && s[pos] == x),
    ensures
        !s.contains(x),
        strictly_sorted(s.insert(pos, x)),
{
    lemma_lex_irreflexive(x, 0);
    if pos < s.len() {
        lemma_lex_total(s[pos], x, 0);
    }
    assert forall|j: int| 0 <= j < s.len() implies s[j] != x by {
        if j > pos {
            assert(lex_lt(s[pos], s[j]));
            lemma_lex_transitive(x, s[pos], s[j], 0);
        }
    }
    let t = s.insert(pos, x);
    assert forall|a: int, b: int| 0 <= a < b < t.len() implies lex_lt(t[a], t[b]) by {
        if a < pos && b > pos {
            assert(lex_lt(s[a], s[b - 1]));
        } else if a == pos && b > pos + 1 {
            assert(lex_lt(s[pos], s[b - 1]));
            lemma_lex_transitive(x, s[pos], s[b - 1], 0);
        } else if a > pos {
            assert(lex_lt(s[a - 1], s[b - 1]));
        }
    }
}

/// Scan position of `id` among people sorted by id.
fn person_slot(people: &Vec<Person>, id: &str) -> (r: (bool, usize))
    ensures
        r.1 <= people@.len(),
        forall|j: int| 0 <= j < r.1 ==> lex_lt(#[trigger] ids_of(people@)[j], id@),
        r.1 < people@.len() ==> !lex_lt(ids_of(people@)[r.1 as int], id@),
        r.0 == (r.1 < people@.len() && ids_of(people@)[r.1 as int] == id@),
{
    let mut i: usize = 0;
    while i < people.len() && str_lt(people[i].id.as_str(), id)
        invariant
            i <= people@.len(),
            forall|j: int| 0 <= j < i ==> lex_lt(#[trigger] ids_of(people@)[j], id@),
        decreases people@.len() - i,
    {
        i = i + 1;
    }
    let found = i < people.len() && str_eq(people[i].id.as_str(), id);
    (found, i)
}

/// Scan position of `c` among sorted codes.
fn code_slot(codes: &Vec<String>, c: &str) -> (r: (bool, usize))
    ensures
        r.1 <= codes@.len(),
        forall|j: int| 0 <= j < r.1 ==> lex_lt(#[trigger] texts_of(codes@)[j], c@),
        r.1 < codes@.len() ==> !lex_lt(texts_of(codes@)[r.1 as int], c@),
        r.0 == (r.1 < codes@.len() && texts_of(codes@)[r.1 as int] == c@),
{
    let mut i: usize = 0;
    while i < codes.len() && str_lt(codes[i].as_str(), c)
        invariant
            i <= codes@.len(),
            forall|j: int| 0 <= j < i ==> lex_lt(#[trigger] texts_of(codes@)[j], c@),
        decreases codes@.len() - i,
    {
        i = i + 1;
    }
    let found = i < codes.len() && str_eq(codes[i].as_str(), c);
    (found, i)
}

/// Person id, code and day of each shift, in input order.
fn shift_keys(shifts: &Vec<RawShift>, config: &ShiftDisplayConfig) -> (r: (
    Vec<String>,
    Vec<String>,
    Vec<Option<usize>>,
))
    ensures
        r.0@.len() == shifts@.len(),
        r.1@.len() == shifts@.len(),
        r.2@.len() == shifts@.len(),
        forall|j: int| 0 <= j < shifts@.len() ==> (#[trigger] r.0@[j])@ == person_id_of(shifts@[j]),
        forall|j: int| 0 <= j < shifts@.len() ==> (#[trigger] r.1@[j])@ == code_of(
            config.alias_map@,
            shifts@[j].alias@,
        ),
        forall|j: int| 0 <= j < shifts@.len() ==> opt_nat(#[trigger] r.2@[j]) == day_of(
            shifts@[j].start_time@,
        ),
{
    let mut ids: Vec<String> = Vec::new();
    let mut codes: Vec<String> = Vec::new();
    let mut days: Vec<Option<usize>> = Vec::new();
    let mut k: usize = 0;
    while k < shifts.len()
        invariant
            k <= shifts@.len(),
            ids@.len() == k,
            codes@.len() == k,
            days@.len() == k,
            forall|j: int| 0 <= j < k ==> (#[trigger] ids@[j])@ == person_id_of(shifts@[j]),
            forall|j: int| 0 <= j < k ==> (#[trigger] codes@[j])@ == code_of(
                config.alias_map@,
                shifts@[j].alias@,
            ),
            forall|j: int| 0 <= j < k ==> opt_nat(#[trigger] days@[j]) == day_of(
                shifts@[j].start_time@,
            ),
        decreases shifts@.len() - k,
    {
        let shift = &shifts[k];
        ids.push(person_id(shift));
        codes.push(extract_shift_code(shift.alias.as_str(), config));
        days.push(extract_day_from_datetime(shift.start_time.as_str()));
        k = k + 1;
    }
    (ids, codes, days)
}

/// The people of the shifts, sorted by id, each with the name of their first shift.
fn collect_people(shifts: &Vec<RawShift>, ids: &Vec<String>) -> (r: Vec<Person>)
    requires
        ids@.len() == shifts@.len(),
        forall|j: int| 0 <= j < shifts@.len() ==> (#[trigger] ids@[j])@ == person_id_of(shifts@[j]),
    ensures
        strictly_sorted(ids_of(r@)),
        forall|i: int|
            0 <= i < r@.len() ==> has_person(shifts@, (#[trigger] r@[i]).id@) && r@[i].name@
                == first_name_for(shifts@, r@[i].id@),
        forall|j: int| 0 <= j < shifts@.len() ==> ids_of(r@).contains(person_id_of(#[trigger] shifts@[j])),
{
    let mut people: Vec<Person> = Vec::new();
    let mut k: usize = 0;
    while k < shifts.len()
        invariant
            k <= shifts@.len(),
            ids@.len() == shifts@.len(),
            forall|j: int| 0 <= j < shifts@.len() ==> (#[trigger] ids@[j])@ == person_id_of(shifts@[j]),
            strictly_sorted(ids_of(people@)),
            forall|i: int|
                0 <= i < people@.len() ==> has_person(shifts@.take(k as int), (#[trigger] people@[i]).id@)
                    && people@[i].name@ == first_name_for(shifts@.take(k as int), people@[i].id@),
            forall|j: int| 0 <= j < k ==> ids_of(people@).contains(person_id_of(#[trigger] shifts@[j])),
        decreases shifts@.len() - k,
    {
        let ghost before = people@;
        let ghost pre = shifts@.take(k as int);
        let ghost next = shifts@.take(k + 1);
        let ghost x = person_id_of(shifts@[k as int]);
        assert(next.drop_last() =~= pre);
        assert(next.last() == shifts@[k as int]);
        let (found, pos) = person_slot(&people, ids[k].as_str());
        if !found {
            proof {
                lemma_sorted_slot(ids_of(before), x, pos as int);
                assert(!has_person(pre, x)) by {
                    lemma_has_person_listed(pre, x, ids_of(before));
                }
            }
            let name = person_name(&shifts[k]);
            people.insert(pos, Person { id: ids[k].clone(), name });
            proof {
                assert(ids_of(people@) =~= ids_of(before).insert(pos as int, x));
            }
        }
        proof {
            assert forall|i: int| 0 <= i < people@.len() implies has_person(
                next,
                (#[trigger] people@[i]).id@,
            ) && people@[i].name@ == first_name_for(next, people@[i].id@) by {
                if found || i < pos {
                    assert(people@[i] == before[i]);
                } else if i > pos {
                    assert(people@[i] == before[i - 1]);
                }
            }
            assert forall|j: int| 0 <= j < k + 1 implies ids_of(people@).contains(
                person_id_of(#[trigger] shifts@[j]),
            ) by {
                if j == k {
                    assert(ids_of(people@)[pos as int] == x);
                } else {
                    let w = choose|w: int| 0 <= w < ids_of(before).len() && ids_of(before)[w] == person_id_of(shifts@[j]);
                    if found || w < pos {
                        assert(ids_of(people@)[w] == ids_of(before)[w]);
                    } else {
                        assert(ids_of(people@)[w + 1] == ids_of(before)[w]);
                    }
                }
            }
        }
        k = k + 1;
    }
    proof {
        assert(shifts@.take(shifts@.len() as int) =~= shifts@);
    }
    people
}

/// Every person of a prefix whose ids are all listed is listed.
proof fn lemma_has_person_listed(ss: Seq<RawShift>, x: Seq<char>, listed: Seq<Seq<char>>)
    requires
        forall|j: int| 0 <= j < ss.len() ==> listed.contains(person_id_of(#[trigger] ss[j])),
        !listed.contains(x),
    ensures
        !has_person(ss, x),
    decreases ss.len(),
{
    if ss.len() > 0 {
        assert forall|j: int| 0 <= j < ss.drop_last().len() implies listed.contains(
            person_id_of(#[trigger] ss.drop_last()[j]),
        ) by {
            assert(ss.drop_last()[j] == ss[j]);
        }
        lemma_has_person_listed(ss.drop_last(), x, listed);
        assert(listed.contains(person_id_of(ss[ss.len() - 1])));
    }
}

/// The sorted distinct non-empty codes of the shifts, and the label of each.
fn collect_codes(shifts: &Vec<RawShift>, codes: &Vec<String>, config: &ShiftDisplayConfig) -> (r: (
    Vec<String>,
    TextMap,
))
    requires
        codes@.len() == shifts@.len(),
        forall|j: int| 0 <= j < shifts@.len() ==> (#[trigger] codes@[j])@ == code_of(
            config.alias_map@,
            shifts@[j].alias@,
        ),
    ensures
        strictly_sorted(texts_of(r.0@)),
        forall|i: int|
            0 <= i < r.0@.len() ==> (#[trigger] r.0@[i])@.len() > 0 && has_code(
                config.alias_map@,
                shifts@,
                r.0@[i]@,
            ),
        forall|j: int|
            0 <= j < shifts@.len() && code_of(config.alias_map@, (#[trigger] shifts@[j]).alias@).len()
                > 0 ==> texts_of(r.0@).contains(code_of(config.alias_map@, shifts@[j].alias@)),
        r.1@ == names_of(config.alias_map@, config.label_map@, shifts@),
{
    let ghost aliases = config.alias_map@;
    let ghost labels = config.label_map@;
    let mut sorted: Vec<String> = Vec::new();
    let mut names = TextMap::new();
    let mut k: usize = 0;
    while k < shifts.len()
        invariant
            k <= shifts@.len(),
            aliases == config.alias_map@,
            labels == config.label_map@,
            codes@.len() == shifts@.len(),
            forall|j: int| 0 <= j < shifts@.len() ==> (#[trigger] codes@[j])@ == code_of(
                aliases,
                shifts@[j].alias@,
            ),
            strictly_sorted(texts_of(sorted@)),
            forall|i: int|
                0 <= i < sorted@.len() ==> (#[trigger] sorted@[i])@.len() > 0 && has_code(
                    aliases,
                    shifts@.take(k as int),
                    sorted@[i]@,
                ),
            forall|j: int|
                0 <= j < k && code_of(aliases, (#[trigger] shifts@[j]).alias@).len() > 0
                    ==> texts_of(sorted@).contains(code_of(aliases, shifts@[j].alias@)),
            names@ == names_of(aliases, labels, shifts@.take(k as int)),
        decreases shifts@.len() - k,
    {
        let ghost before = sorted@;
        let ghost pre = shifts@.take(k as int);
        let ghost next = shifts@.take(k + 1);
        let ghost x = code_of(aliases, shifts@[k as int].alias@);
        assert(next.drop_last() =~= pre);
        assert(next.last() == shifts@[k as int]);
        let code = &codes[k];
        if !code.as_str().is_empty() {
            let (found, pos) = code_slot(&sorted, code.as_str());
            if !found {
                proof {
                    lemma_sorted_slot(texts_of(before), x, pos as int);
                }
                sorted.insert(pos, code.clone());
                proof {
                    assert(texts_of(sorted@) =~= texts_of(before).insert(pos as int, x));
                }
            }
            let label = config.resolve_label(code.as_str(), shifts[k].alias.as_str());
            names.insert(code.clone(), label);
            proof {
                assert forall|i: int| 0 <= i < sorted@.len() implies (#[trigger] sorted@[i])@.len()
                    > 0 && has_code(aliases, next, sorted@[i]@) by {
                    if found || i < pos {
                        assert(sorted@[i] == before[i]);
                    } else if i > pos {
                        assert(sorted@[i] == before[i - 1]);
                    }
                }
                assert forall|j: int|
                    0 <= j < k + 1 && code_of(aliases, (#[trigger] shifts@[j]).alias@).len()
                        > 0 implies texts_of(sorted@).contains(code_of(aliases, shifts@[j].alias@)) by {
                    if j == k {
                        assert(texts_of(sorted@)[pos as int] == x);
                    } else {
                        let w = choose|w: int|
                            0 <= w < texts_of(before).len() && texts_of(before)[w] == code_of(
                                aliases,
                                shifts@[j].alias@,
                            );
                        if found || w < pos {
                            assert(texts_of(sorted@)[w] == texts_of(before)[w]);
                        } else {
                            assert(texts_of(sorted@)[w + 1] == texts_of(before)[w]);
                        }
                    }
                }
            }
        }
        k = k + 1;
    }
    proof {
        assert(shifts@.take(shifts@.len() as int) =~= shifts@);
    }
    (sorted, names)
}

/// Row of each shift: the position of its person among the sorted people.
fn row_indices(people: &Vec<Person>, ids: &Vec<String>) -> (r: Vec<usize>)
    requires
        strictly_sorted(ids_of(people@)),
        forall|j: int| 0 <= j < ids@.len() ==> ids_of(people@).contains((#[trigger] ids@[j])@),
    ensures
        r@.len() == ids@.len(),
        forall|j: int|
            0 <= j < ids@.len() ==> (#[trigger] r@[j]) < people@.len() && people@[r@[j] as int].id@
                == ids@[j]@,
{
    let mut rows: Vec<usize> = Vec::new();
    let mut k: usize = 0;
    while k < ids.len()
        invariant
            k <= ids@.len(),
            rows@.len() == k,
            strictly_sorted(ids_of(people@)),
            forall|j: int| 0 <= j < ids@.len() ==> ids_of(people@).contains((#[trigger] ids@[j])@),
            forall|j: int|
                0 <= j < k ==> (#[trigger] rows@[j]) < people@.len() && people@[rows@[j] as int].id@
                    == ids@[j]@,
        decreases ids@.len() - k,
    {
        let (found, pos) = person_slot(people, ids[k].as_str());
        if !found {
            proof {
                lemma_sorted_slot(ids_of(people@), ids@[k as int]@, pos as int);
                assert(ids_of(people@).contains(ids@[k as int]@));
            }
        }
        rows.push(pos);
        k = k + 1;
    }
    rows
}

/// The cell of person row `row` on day `day`: the codes of that person's
/// shifts on that day, in input order.
fn build_cell(
    shifts: &Vec<RawShift>,
    config: &ShiftDisplayConfig,
    people: &Vec<Person>,
    rows_of: &Vec<usize>,
    codes: &Vec<String>,
    days: &Vec<Option<usize>>,
    row: usize,
    day: usize,
) -> (r: Option<Vec<String>>)
    requires
        row < people@.len(),
        strictly_sorted(ids_of(people@)),
        rows_of@.len() == shifts@.len(),
        codes@.len() == shifts@.len(),
        days@.len() == shifts@.len(),
        forall|j: int|
            0 <= j < shifts@.len() ==> (#[trigger] rows_of@[j]) < people@.len()
                && people@[rows_of@[j] as int].id@ == person_id_of(shifts@[j]),
        forall|j: int| 0 <= j < shifts@.len() ==> (#[trigger] codes@[j])@ == code_of(
            config.alias_map@,
            shifts@[j].alias@,
        ),
        forall|j: int| 0 <= j < shifts@.len() ==> opt_nat(#[trigger] days@[j]) == day_of(
            shifts@[j].start_time@,
        ),
    ensures
        cell_view(r) == cell_of(cell_codes(config.alias_map@, shifts@, people@[row as int].id@, day as nat)),
{
    let ghost id = people@[row as int].id@;
    let mut cell: Vec<String> = Vec::new();
    let mut k: usize = 0;
    while k < shifts.len()
        invariant
            k <= shifts@.len(),
            row < people@.len(),
            id == people@[row as int].id@,
            strictly_sorted(ids_of(people@)),
            rows_of@.len() == shifts@.len(),
            codes@.len() == shifts@.len(),
            days@.len() == shifts@.len(),
            forall|j: int|
                0 <= j < shifts@.len() ==> (#[trigger] rows_of@[j]) < people@.len()
                    && people@[rows_of@[j] as int].id@ == person_id_of(shifts@[j]),
            forall|j: int| 0 <= j < shifts@.len() ==> (#[trigger] codes@[j])@ == code_of(
                config.alias_map@,
                shifts@[j].alias@,
            ),
            forall|j: int| 0 <= j < shifts@.len() ==> opt_nat(#[trigger] days@[j]) == day_of(
                shifts@[j].start_time@,
            ),
            texts_of(cell@) == cell_codes(config.alias_map@, shifts@.take(k as int), id, day as nat),
        decreases shifts@.len() - k,
    {
        let ghost next = shifts@.take(k + 1);
        assert(next.drop_last() =~= shifts@.take(k as int));
        assert(next.last() == shifts@[k as int]);
        let same_day = match days[k] {
            Some(d) => d == day,
            None => false,
        };
        proof {
            let rk = rows_of@[k as int] as int;
            if rk != row {
                lemma_sorted_distinct(ids_of(people@), rk, row as int);
                assert(ids_of(people@)[rk] == people@[rk].id@);
                assert(ids_of(people@)[row as int] == people@[row as int].id@);
            }
        }
        if rows_of[k] == row && same_day {
            let ghost before = cell@;
            cell.push(codes[k].clone());
            proof {
                assert(texts_of(cell@) =~= texts_of(before).push(codes@[k as int]@));
            }
        }
        k = k + 1;
    }
    proof {
        assert(shifts@.take(shifts@.len() as int) =~= shifts@);
    }
    if cell.len() == 0 {
        None
    } else {
        Some(cell)
    }
}

/// Builds the month grid of `ym` from the shifts, in input order.
///
/// People are the distinct person ids of the shifts, sorted, each named after
/// its first shift; the grid has a row per person and a column per day of the
/// month, each cell holding the codes of that person's shifts that day in input
/// order (none when there are none); codes are the distinct non-empty codes,
/// sorted; each code is labelled from the last shift that has it.
pub fn transform_to_month_shifts(
    ym: String,
    shifts: Vec<RawShift>,
    shift_display_config: &ShiftDisplayConfig,
) -> (r: MonthShifts)
    requires
        valid_ym(ym@),
    ensures
        r.ym@ == ym@,
        strictly_sorted(ids_of(r.people@)),
        forall|i: int|
            0 <= i < r.people@.len() ==> has_person(shifts@, (#[trigger] r.people@[i]).id@)
                && r.people@[i].name@ == first_name_for(shifts@, r.people@[i].id@),
        forall|j: int|
            0 <= j < shifts@.len() ==> ids_of(r.people@).contains(person_id_of(#[trigger] shifts@[j])),
        r.rows@.len() == r.people@.len(),
        forall|i: int|
            0 <= i < r.rows@.len() ==> (#[trigger] r.rows@[i])@.len() == month_length(
                year_of(ym@),
                month_of(ym@),
            ),
        forall|i: int, d: int|
            0 <= i < r.rows@.len() && 0 <= d < r.rows@[i]@.len() ==> cell_view(
                #[trigger] r.rows@[i]@[d],
            ) == cell_of(
                cell_codes(
                    shift_display_config.alias_map@,
                    shifts@,
                    r.people@[i].id@,
                    (d + 1) as nat,
                ),
            ),
        strictly_sorted(texts_of(r.codes@)),
        forall|i: int|
            0 <= i < r.codes@.len() ==> (#[trigger] r.codes@[i])@.len() > 0 && has_code(
                shift_display_config.alias_map@,
                shifts@,
                r.codes@[i]@,
            ),
        forall|j: int|
            0 <= j < shifts@.len() && code_of(
                shift_display_config.alias_map@,
                (#[trigger] shifts@[j]).alias@,
            ).len() > 0 ==> texts_of(r.codes@).contains(
                code_of(shift_display_config.alias_map@, shifts@[j].alias@),
            ),
        r.shift_names@ == names_of(
            shift_display_config.alias_map@,
            shift_display_config.label_map@,
            shifts@,
        ),
{
    let (ids, codes_per_shift, days) = shift_keys(&shifts, shift_display_config);
    let people = collect_people(&shifts, &ids);
    let (codes, shift_names) = collect_codes(&shifts, &codes_per_shift, shift_display_config);
    let days_count = days_in_month(ym.as_str());
    proof {
        assert forall|j: int| 0 <= j < ids@.len() implies ids_of(people@).contains(
            (#[trigger] ids@[j])@,
        ) by {
            assert(ids@[j]@ == person_id_of(shifts@[j]));
        }
    }
    let rows_of = row_indices(&people, &ids);
    let mut rows: Vec<Vec<Option<Vec<String>>>> = Vec::new();
    let mut p: usize = 0;
    while p < people.len()
        invariant
            p <= people@.len(),
            rows@.len() == p,
            days_count == month_length(year_of(ym@), month_of(ym@)),
            strictly_sorted(ids_of(people@)),
            rows_of@.len() == shifts@.len(),
            codes_per_shift@.len() == shifts@.len(),
            days@.len() == shifts@.len(),
            forall|j: int|
                0 <= j < shifts@.len() ==> (#[trigger] rows_of@[j]) < people@.len()
                    && people@[rows_of@[j] as int].id@ == person_id_of(shifts@[j]),
            forall|j: int| 0 <= j < shifts@.len() ==> (#[trigger] codes_per_shift@[j])@ == code_of(
                shift_display_config.alias_map@,
                shifts@[j].alias@,
            ),
            forall|j: int| 0 <= j < shifts@.len() ==> opt_nat(#[trigger] days@[j]) == day_of(
                shifts@[j].start_time@,
            ),
            forall|i: int| 0 <= i < p ==> (#[trigger] rows@[i])@.len() == days_count,
            forall|i: int, d: int|
                0 <= i < p && 0 <= d < days_count ==> cell_view(#[trigger] rows@[i]@[d]) == cell_of(
                    cell_codes(
                        shift_display_config.alias_map@,
                        shifts@,
                        people@[i].id@,
                        (d + 1) as nat,
                    ),
                ),
        decreases people@.len() - p,
    {
        let mut row: Vec<Option<Vec<String>>> = Vec::new();
        let mut d: usize = 0;
        while d < days_count
            invariant
                d <= days_count,
                p < people@.len(),
                row@.len() == d,
                days_count <= 31,
                strictly_sorted(ids_of(people@)),
                rows_of@.len() == shifts@.len(),
                codes_per_shift@.len() == shifts@.len(),
                days@.len() == shifts@.len(),
                forall|j: int|
                    0 <= j < shifts@.len() ==> (#[trigger] rows_of@[j]) < people@.len()
                        && people@[rows_of@[j] as int].id@ == person_id_of(shifts@[j]),
                forall|j: int|
                    0 <= j < shifts@.len() ==> (#[trigger] codes_per_shift@[j])@ == code_of(
                        shift_display_config.alias_map@,
                        shifts@[j].alias@,
                    ),
                forall|j: int| 0 <= j < shifts@.len() ==> opt_nat(#[trigger] days@[j]) == day_of(
                    shifts@[j].start_time@,
                ),
                forall|e: int|
                    0 <= e < d ==> cell_view(#[trigger] row@[e]) == cell_of(
                        cell_codes(
                            shift_display_config.alias_map@,
                            shifts@,
                            people@[p as int].id@,
                            (e + 1) as nat,
                        ),
                    ),
            decreases days_count - d,
        {
            let cell = build_cell(
                &shifts,
                shift_display_config,
                &people,
                &rows_of,
                &codes_per_shift,
                &days,
                p,
                d + 1,
            );
            row.push(cell);
            d = d + 1;
        }
        rows.push(row);
        p = p + 1;
    }
    MonthShifts { ym, people, rows, codes, shift_names }
}

/// Two shifts of one person on one day both land in that day's cell, in input
/// order, after whatever the earlier shifts put there: a cell is appended to,
/// never overwritten.
pub proof fn lemma_same_day_shifts_accumulate(
    aliases: Map<Seq<char>, Seq<char>>,
    earlier: Seq<RawShift>,
    a: RawShift,
    b: RawShift,
    day: nat,
)
    requires
        person_id_of(a) == person_id_of(b),
        day_of(a.start_time@) == Some(day),
        day_of(b.start_time@) == Some(day),
    ensures
        cell_codes(aliases, earlier.push(a).push(b), person_id_of(a), day) == cell_codes(
            aliases,
            earlier,
            person_id_of(a),
            day,
        ) + seq![code_of(aliases, a.alias@), code_of(aliases, b.alias@)],
{
    let id = person_id_of(a);
    let ea = earlier.push(a);
    let eab = ea.push(b);
    assert(eab.drop_last() =~= ea);
    assert(ea.drop_last() =~= earlier);
    assert(eab.last() == b);
    assert(ea.last() == a);
    assert(cell_codes(aliases, ea, id, day) == cell_codes(aliases, earlier, id, day).push(
        code_of(aliases, a.alias@),
    ));
    assert(cell_codes(aliases, eab, id, day) == cell_codes(aliases, ea, id, day).push(
        code_of(aliases, b.alias@),
    ));
    assert(cell_codes(aliases, earlier, person_id_of(a), day).push(code_of(aliases, a.alias@)).push(
        code_of(aliases, b.alias@),
    ) =~= cell_codes(aliases, earlier, person_id_of(a), day) + seq![
        code_of(aliases, a.alias@),
        code_of(aliases, b.alias@),
    ]);
}

/// A shift with no user id and no names belongs to the person `Unknown_`.
pub proof fn lemma_unknown_person_id(s: RawShift)
    requires
        s.user_id is None,
        s.first_name is None,
        s.last_name is None,
    ensures
        person_id_of(s) == seq!['U', 'n', 'k', 'n', 'o', 'w', 'n', '_'],
{
    assert(person_id_of(s) =~= seq!['U', 'n', 'k', 'n', 'o', 'w', 'n', '_']);
}

/// Every shift with a day is found in the cell of its own person on that day:
/// the person id used for the row list and for the cells is the same.
pub proof fn lemma_cell_holds_shift(
    aliases: Map<Seq<char>, Seq<char>>,
    ss: Seq<RawShift>,
    k: int,
    day: nat,
)
    requires
        0 <= k < ss.len(),
        day_of(ss[k].start_time@) == Some(day),
    ensures
        cell_codes(aliases, ss, person_id_of(ss[k]), day).contains(code_of(aliases, ss[k].alias@)),
    decreases ss.len(),
{
    let id = person_id_of(ss[k]);
    let prev = cell_codes(aliases, ss.drop_last(), id, day);
    if k == ss.len() - 1 {
        assert(cell_codes(aliases, ss, id, day) == prev.push(code_of(aliases, ss[k].alias@)));
        assert(cell_codes(aliases, ss, id, day)[prev.len() as int] == code_of(aliases, ss[k].alias@));
    } else {
        assert(ss.drop_last()[k] == ss[k]);
        lemma_cell_holds_shift(aliases, ss.drop_last(), k, day);
        let c = code_of(aliases, ss[k].alias@);
        let w = choose|w: int| 0 <= w < prev.len() && prev[w] == c;
        assert(cell_codes(aliases, ss, id, day)[w] == c);
    }
}

} // verus!
