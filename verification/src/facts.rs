//! The lines that the commands `MLST` and `MLSD` answer with: facts about a file, and its name.
use crate::text::{
    all_white_space, first_of, is_capital, is_trimmed, law_split_and_join, law_split_once,
    law_trimmed,
    lemma_first_of, lemma_first_of_is, lemma_split_front, lemma_split_none,
    lemma_split_on_nonempty, lemma_split_once_at, lemma_split_padded_end,
    lemma_split_padded_front, lemma_trimmed_lacks, lemma_trimmed_padded, lemma_trimmed_stays,
    lower_case, same_text, split_on, split_once, split_text, split_text_once, trimmed,
    trimmed_start,
};
use vstd::prelude::*;

verus! {

/// A fact: what stands before the first `=`, in lower case, and what stands behind it, both
/// without white space at the ends. Text without `=` is no fact.
pub open spec fn fact_of(part: Seq<char>) -> Option<(Seq<char>, Seq<char>)> {
    match split_once(part, '=') {
        Some((key, value)) => Some((lower_case(trimmed(key)), trimmed(value))),
        None => None,
    }
}

/// Whether `part` is a fact with the key `key`.
pub open spec fn gives(part: Seq<char>, key: Seq<char>) -> bool {
    fact_of(part) matches Some(pair) && pair.0 == key
}

/// The facts among `parts`. Of two facts with one key, the later one counts.
pub open spec fn facts_of(parts: Seq<Seq<char>>) -> Map<Seq<char>, Seq<char>>
    decreases parts.len(),
{
    if parts.len() == 0 {
        Map::empty()
    } else {
        let before = facts_of(parts.drop_last());
        match fact_of(parts.last()) {
            Some((key, value)) => before.insert(key, value),
            None => before,
        }
    }
}

/// The facts of a line: those between its semicolons.
pub open spec fn line_facts(line: Seq<char>) -> Map<Seq<char>, Seq<char>> {
    facts_of(split_on(line, ';').drop_last())
}

/// The name of a line: what stands behind its last semicolon, without white space at the ends.
pub open spec fn line_name(line: Seq<char>) -> Seq<char> {
    trimmed(split_on(line, ';').last())
}

/// Whether `s` holds none of the letters `A` to `Z`.
pub open spec fn no_capitals(s: Seq<char>) -> bool {
    forall|i: int| 0 <= i < s.len() ==> !is_capital(#[trigger] s[i])
}

/// A key with its value, as text.
pub open spec fn fact_text(fact: (String, String)) -> (Seq<char>, Seq<char>) {
    (fact.0@, fact.1@)
}

/// Keys with their values, as text.
pub open spec fn fact_texts(entries: Seq<(String, String)>) -> Seq<(Seq<char>, Seq<char>)> {
    entries.map_values(|fact: (String, String)| fact_text(fact))
}

/// A list of keys with their values as a map. Of two entries with one key, the later one counts.
pub open spec fn fact_map(entries: Seq<(Seq<char>, Seq<char>)>) -> Map<Seq<char>, Seq<char>>
    decreases entries.len(),
{
    if entries.len() == 0 {
        Map::empty()
    } else {
        fact_map(entries.drop_last()).insert(entries.last().0, entries.last().1)
    }
}

/// Facts about a file: values by their keys, which are in lower case.
pub struct Facts {
    entries: Vec<(String, String)>,
}

impl View for Facts {
    type V = Map<Seq<char>, Seq<char>>;

    closed spec fn view(&self) -> Map<Seq<char>, Seq<char>> {
        fact_map(self.texts())
    }
}

/// Whether `key` can be the key of a fact: it is in lower case, holds no `=` or `;`, and has no
/// white space at its ends.
pub open spec fn is_key(key: Seq<char>) -> bool {
    no_capitals(key) && !key.contains('=') && !key.contains(';') && is_trimmed(key)
}

/// Whether `value` can be the value of a fact: it holds no `;`, and has no white space at its ends.
pub open spec fn is_value(value: Seq<char>) -> bool {
    !value.contains(';') && is_trimmed(value)
}

/// Whether facts have keys and values that facts can have.
pub open spec fn are_facts(facts: Map<Seq<char>, Seq<char>>) -> bool {
    forall|key: Seq<char>| #[trigger]
        facts.contains_key(key) ==> is_key(key) && is_value(facts[key])
}

impl Facts {
    #[verifier::type_invariant]
    spec fn inv(&self) -> bool {
        are_facts(self@)
    }

    spec fn texts(&self) -> Seq<(Seq<char>, Seq<char>)> {
        fact_texts(self.entries@)
    }

    /// No facts.
    fn new() -> (r: Facts)
        ensures
            r@ == Map::<Seq<char>, Seq<char>>::empty(),
    {
        let entries: Vec<(String, String)> = Vec::new();
        assert(fact_texts(entries@) == Seq::<(Seq<char>, Seq<char>)>::empty());
        Facts { entries }
    }

    /// Puts `value` down for `key`, in place of an earlier value.
    fn insert(&mut self, key: String, value: String)
        requires
            is_key(key@),
            is_value(value@),
        ensures
            final(self)@ == old(self)@.insert(key@, value@),
    {
        proof {
            use_type_invariant(&*self);
        }
        let ghost before = self.texts();
        let ghost facts = self@;
        let ghost fact = (key@, value@);
        let mut entries: Vec<(String, String)> = Vec::new();
        assert(fact_texts(entries@) == Seq::<(Seq<char>, Seq<char>)>::empty());
        std::mem::swap(&mut entries, &mut self.entries);
        entries.push((key, value));
        proof {
            let after = fact_texts(entries@);
            assert(after == before.push(fact));
            assert(after.drop_last() == before);
            assert(fact_map(after) == facts.insert(fact.0, fact.1));
            assert(are_facts(fact_map(after)));
        }
        self.entries = entries;
    }

    /// The value of `key`.
    pub fn get(&self, key: &str) -> (r: Option<&String>)
        ensures
            match r {
                Some(value) => {
                    &&& self@.contains_key(key@)
                    &&& self@[key@] == value@
                    &&& is_key(key@)
                    &&& is_value(value@)
                },
                None => !self@.contains_key(key@),
            },
    {
        proof {
            use_type_invariant(self);
        }
        let ghost all = self.texts();
        let mut i: usize = self.entries.len();
        assert(all.take(i as int) == all);
        while i > 0
            invariant
                all == self.texts(),
                are_facts(self@),
                i <= self.entries.len(),
                self@.contains_key(key@) == fact_map(all.take(i as int)).contains_key(key@),
                self@.contains_key(key@) ==> self@[key@] == fact_map(all.take(i as int))[key@],
            decreases i,
        {
            proof {
                assert(all.take(i as int).drop_last() == all.take(i - 1));
                assert(all[i - 1] == fact_text(self.entries@[i - 1]));
            }
            i = i - 1;
            if same_text(self.entries[i].0.as_str(), key) {
                return Some(&self.entries[i].1);
            }
        }
        None
    }
}

/// Reads a line: facts, each ended by a semicolon, and behind them a name.
pub fn parse_facts(line: &str) -> (r: (Facts, String))
    ensures
        are_facts(r.0@),
        r.0@ == line_facts(line@),
        r.1@ == line_name(line@),
{
    let parts = split_text(line, ';');
    let ghost all = parts@.map_values(|piece: &str| piece@);
    proof {
        lemma_split_on_nonempty(line@, ';');
        law_split_and_join(line@, ';');
        assert(all.len() == parts@.len());
    }
    let last: usize = parts.len() - 1;
    let mut facts = Facts::new();
    let mut i: usize = 0;
    while i < last
        invariant
            all == parts@.map_values(|piece: &str| piece@),
            i <= last < parts.len(),
            facts@ == facts_of(all.take(i as int)),
            forall|k: int| 0 <= k < all.len() ==> !(#[trigger] all[k]).contains(';'),
        decreases last - i,
    {
        let part = parts[i];
        assert(all[i as int] == part@);
        if let Some((key, value)) = split_text_once(part, '=') {
            proof {
                lemma_fact_parts(part@);
            }
            let key = key.trim().to_lowercase();
            facts.insert(key, value.trim().to_owned());
        }
        proof {
            assert(all.take(i + 1).drop_last() == all.take(i as int));
        }
        i = i + 1;
    }
    assert(all.take(last as int) == all.drop_last());
    assert(all.last() == parts@[last as int]@);
    proof {
        use_type_invariant(&facts);
    }
    (facts, parts[last].trim().to_owned())
}

/// What stands round the first `=` of a part has no white space at its ends when that is cut off,
/// holds no `;` where the part holds none, and before the `=` no `=`.
proof fn lemma_fact_parts(part: Seq<char>)
    requires
        !part.contains(';'),
        split_once(part, '=') is Some,
    ensures
        ({
            let (key, value) = split_once(part, '=')->Some_0;
            &&& !trimmed(key).contains('=')
            &&& !trimmed(key).contains(';')
            &&& is_trimmed(trimmed(key))
            &&& is_value(trimmed(value))
        }),
{
    let (key, value) = split_once(part, '=')->Some_0;
    let stops = seq!['='];
    lemma_first_of(part, stops);
    assert(stops[0] == '=');
    assert(!key.contains('='));
    assert forall|i: int| 0 <= i < key.len() implies key[i] != ';' by {
        assert(key[i] == part[i]);
    }
    let start = first_of(part, stops) + 1;
    assert forall|i: int| 0 <= i < value.len() implies value[i] != ';' by {
        assert(value[i] == part[start + i]);
    }
    lemma_trimmed_lacks(key, '=');
    lemma_trimmed_lacks(key, ';');
    lemma_trimmed_lacks(value, ';');
    law_trimmed(key);
    law_trimmed(value);
}

/// The name of a line holds no semicolon, and no white space at its ends.
pub proof fn law_line_name(line: Seq<char>)
    ensures
        !line_name(line).contains(';'),
        is_trimmed(line_name(line)),
{
    let pieces = split_on(line, ';');
    lemma_split_on_nonempty(line, ';');
    law_split_and_join(line, ';');
    assert(!pieces[pieces.len() - 1].contains(';'));
    lemma_trimmed_lacks(pieces.last(), ';');
    law_trimmed(pieces.last());
}

/// Of facts with one key the last counts: the key is found if and only if a part gives it, and its
/// value is the one in the last such part.
pub proof fn law_last_fact_counts(parts: Seq<Seq<char>>, key: Seq<char>)
    ensures
        facts_of(parts).contains_key(key) <==> exists|i: int|
            #![trigger parts[i]]
            0 <= i < parts.len() && gives(parts[i], key),
        forall|i: int| #[trigger]
            is_last_fact(parts, key, i) ==> facts_of(parts)[key] == fact_of(parts[i])->Some_0.1,
{
    if facts_of(parts).contains_key(key) {
        lemma_fact_was_given(parts, key);
    }
    assert forall|i: int|
        #![trigger parts[i]]
        0 <= i < parts.len() && gives(parts[i], key) implies facts_of(parts).contains_key(key) by {
        lemma_given_fact_counts(parts, key, i);
    }
    assert forall|i: int| #[trigger] is_last_fact(parts, key, i) implies facts_of(parts)[key]
        == fact_of(parts[i])->Some_0.1 by {
        lemma_last_fact_counts(parts, key, i);
    }
}

/// Whether the part at `at` gives `key`, and none behind it does.
pub open spec fn is_last_fact(parts: Seq<Seq<char>>, key: Seq<char>, at: int) -> bool {
    &&& 0 <= at < parts.len()
    &&& gives(parts[at], key)
    &&& forall|k: int| at < k < parts.len() ==> !gives(#[trigger] parts[k], key)
}

proof fn lemma_fact_was_given(parts: Seq<Seq<char>>, key: Seq<char>)
    requires
        facts_of(parts).contains_key(key),
    ensures
        exists|i: int|
            #![trigger parts[i]]
            0 <= i < parts.len() && gives(parts[i], key),
    decreases parts.len(),
{
    let last = parts.len() - 1;
    if parts.len() > 0 && !gives(parts[last], key) {
        let before = parts.drop_last();
        lemma_fact_was_given(before, key);
        let i = choose|i: int|
            #![trigger before[i]]
            0 <= i < before.len() && gives(before[i], key);
        assert(gives(parts[i], key));
    }
}

proof fn lemma_given_fact_counts(parts: Seq<Seq<char>>, key: Seq<char>, at: int)
    requires
        0 <= at < parts.len(),
        gives(parts[at], key),
    ensures
        facts_of(parts).contains_key(key),
    decreases parts.len(),
{
    if at < parts.len() - 1 {
        assert(parts.drop_last()[at] == parts[at]);
        lemma_given_fact_counts(parts.drop_last(), key, at);
    }
}

proof fn lemma_last_fact_counts(parts: Seq<Seq<char>>, key: Seq<char>, at: int)
    requires
        is_last_fact(parts, key, at),
    ensures
        facts_of(parts)[key] == fact_of(parts[at])->Some_0.1,
    decreases parts.len(),
{
    let last = parts.len() - 1;
    if at < last {
        let before = parts.drop_last();
        assert(!gives(parts[last], key));
        assert(before[at] == parts[at]);
        assert forall|k: int| at < k < before.len() implies !gives(#[trigger] before[k], key) by {
            assert(before[k] == parts[k]);
        }
        lemma_last_fact_counts(before, key, at);
    }
}

/// A fact as it is written: a key, `=`, a value and `;`.
pub open spec fn written_fact(key: Seq<char>, value: Seq<char>) -> Seq<char> {
    key.push('=') + value.push(';')
}

/// Whether `key` is read as it is written: it can be a key, and lower case leaves it as it is.
pub open spec fn is_plain_key(key: Seq<char>) -> bool {
    is_key(key) && lower_case(key) == key
}

/// A line without a semicolon has no facts, and all of it is the name, but for white space at its
/// ends.
pub proof fn law_line_without_facts(line: Seq<char>)
    requires
        !line.contains(';'),
    ensures
        line_facts(line) == Map::<Seq<char>, Seq<char>>::empty(),
        line_name(line) == trimmed(line),
{
    lemma_split_none(line, ';');
    assert(split_on(line, ';').drop_last() == Seq::<Seq<char>>::empty());
}

/// Text without `=` in front of a line, ended by a semicolon, changes nothing.
pub proof fn law_no_fact_in_front(part: Seq<char>, line: Seq<char>)
    requires
        !part.contains('='),
        !part.contains(';'),
    ensures
        line_name(part + seq![';'] + line) == line_name(line),
        line_facts(part + seq![';'] + line) == line_facts(line),
{
    let rest = split_on(line, ';');
    lemma_split_on_nonempty(line, ';');
    assert(part + seq![';'] + line == part.push(';') + line);
    lemma_split_front(part, ';', line);
    let pieces = seq![part] + rest;
    assert(pieces.last() == rest.last());
    assert(pieces.drop_last() == seq![part] + rest.drop_last());
    law_split_once(part, '=');
    lemma_first_no_fact(part, rest.drop_last());
}

proof fn lemma_first_no_fact(part: Seq<char>, rest: Seq<Seq<char>>)
    requires
        fact_of(part) is None,
    ensures
        facts_of(seq![part] + rest) == facts_of(rest),
    decreases rest.len(),
{
    let all = seq![part] + rest;
    if rest.len() == 0 {
        assert(all.drop_last() == rest);
        assert(all.last() == part);
    } else {
        lemma_first_no_fact(part, rest.drop_last());
        assert(all.drop_last() == seq![part] + rest.drop_last());
        assert(all.last() == rest.last());
    }
}

/// A key, `=`, a value and a semicolon in front of a line are a fact, with the key in lower case and
/// both without white space at their ends. It counts where the line does not give the key itself;
/// the name stays.
pub proof fn law_any_fact_in_front(key: Seq<char>, value: Seq<char>, line: Seq<char>)
    requires
        !key.contains('='),
        !key.contains(';'),
        !value.contains(';'),
    ensures
        ({
            let whole = key + seq!['='] + value + seq![';'] + line;
            let read = lower_case(trimmed(key));
            &&& line_name(whole) == line_name(line)
            &&& line_facts(line).contains_key(read) ==> line_facts(whole) == line_facts(line)
            &&& !line_facts(line).contains_key(read) ==> line_facts(whole) == line_facts(
                line,
            ).insert(read, trimmed(value))
        }),
{
    let part = key.push('=') + value;
    let whole = key + seq!['='] + value + seq![';'] + line;
    let rest = split_on(line, ';');
    lemma_split_on_nonempty(line, ';');
    assert(whole == part.push(';') + line);
    assert forall|i: int| 0 <= i < part.len() implies part[i] != ';' by {
        if i < key.len() {
            assert(part[i] == key[i]);
        } else if i > key.len() {
            assert(part[i] == value[i - key.len() - 1]);
        }
    }
    lemma_split_front(part, ';', line);
    assert(split_on(whole, ';').last() == rest.last());
    assert(split_on(whole, ';').drop_last() == seq![part] + rest.drop_last());
    lemma_split_once_at(key, '=', value);
    lemma_first_fact(part, rest.drop_last());
}

/// A fact in front of a line counts where the line does not give its key; the name stays.
pub proof fn law_fact_in_front(key: Seq<char>, value: Seq<char>, line: Seq<char>)
    requires
        is_plain_key(key),
        is_value(value),
    ensures
        line_name(written_fact(key, value) + line) == line_name(line),
        line_facts(written_fact(key, value) + line) == if line_facts(line).contains_key(key) {
            line_facts(line)
        } else {
            line_facts(line).insert(key, value)
        },
{
    let whole = written_fact(key, value) + line;
    assert(whole == key + seq!['='] + value + seq![';'] + line);
    law_any_fact_in_front(key, value, line);
    lemma_trimmed_stays(key);
    lemma_trimmed_stays(value);
}

/// A first part counts where no other part gives its key.
proof fn lemma_first_fact(part: Seq<char>, rest: Seq<Seq<char>>)
    requires
        fact_of(part) is Some,
    ensures
        ({
            let (key, value) = fact_of(part)->Some_0;
            facts_of(seq![part] + rest) == if facts_of(rest).contains_key(key) {
                facts_of(rest)
            } else {
                facts_of(rest).insert(key, value)
            }
        }),
    decreases rest.len(),
{
    let (key, value) = fact_of(part)->Some_0;
    let all = seq![part] + rest;
    if rest.len() == 0 {
        assert(all.drop_last() == rest);
        assert(all.last() == part);
        assert(facts_of(rest) == Map::<Seq<char>, Seq<char>>::empty());
    } else {
        let before = rest.drop_last();
        lemma_first_fact(part, before);
        assert(all.drop_last() == seq![part] + before);
        assert(all.last() == rest.last());
        if let Some((other, text)) = fact_of(rest.last()) {
            if other == key {
                assert(facts_of(before).insert(key, value).insert(other, text) == facts_of(
                    before,
                ).insert(other, text));
            } else {
                assert(facts_of(before).insert(key, value).insert(other, text) == facts_of(
                    before,
                ).insert(other, text).insert(key, value));
            }
        }
    }
}

/// Facts as they are written, one behind the other.
pub open spec fn written_facts(facts: Seq<(Seq<char>, Seq<char>)>) -> Seq<char>
    decreases facts.len(),
{
    if facts.len() == 0 {
        Seq::empty()
    } else {
        written_fact(facts[0].0, facts[0].1) + written_facts(facts.drop_first())
    }
}

/// What is written is read back: facts with different keys, and a name behind a space.
pub proof fn law_written_line(facts: Seq<(Seq<char>, Seq<char>)>, name: Seq<char>)
    requires
        forall|i: int|
            0 <= i < facts.len() ==> is_plain_key((#[trigger] facts[i]).0) && is_value(facts[i].1),
        forall|i: int, j: int|
            0 <= i < j < facts.len() ==> (#[trigger] facts[i]).0 != (#[trigger] facts[j]).0,
        is_value(name),
    ensures
        line_name(written_facts(facts) + seq![' '] + name) == name,
        forall|key: Seq<char>|
            #![trigger line_facts(written_facts(facts) + seq![' '] + name).contains_key(key)]
            line_facts(written_facts(facts) + seq![' '] + name).contains_key(key) <==> exists|
                i: int,
            |
                0 <= i < facts.len() && (#[trigger] facts[i]).0 == key,
        forall|i: int|
            0 <= i < facts.len() ==> line_facts(
                written_facts(facts) + seq![' '] + name,
            )[(#[trigger] facts[i]).0] == facts[i].1,
    decreases facts.len(),
{
    let end = seq![' '] + name;
    let line = written_facts(facts) + seq![' '] + name;
    if facts.len() == 0 {
        assert(line == end);
        assert forall|i: int| 0 <= i < end.len() implies end[i] != ';' by {
            if i > 0 {
                assert(end[i] == name[i - 1]);
            }
        }
        lemma_split_none(end, ';');
        assert(split_on(end, ';').drop_last() == Seq::<Seq<char>>::empty());
        assert(end.drop_first() == name);
        reveal_with_fuel(trimmed_start, 2);
        assert(trimmed(end) == trimmed(name));
        lemma_trimmed_stays(name);
    } else {
        let rest = facts.drop_first();
        let (key, value) = facts[0];
        let behind = written_facts(rest) + seq![' '] + name;
        assert(line == written_fact(key, value) + behind);
        assert(forall|i: int| 0 <= i < rest.len() ==> #[trigger] rest[i] == facts[i + 1]);
        law_written_line(rest, name);
        law_fact_in_front(key, value, behind);
        assert(!line_facts(behind).contains_key(key)) by {
            if line_facts(behind).contains_key(key) {
                let i = choose|i: int| 0 <= i < rest.len() && (#[trigger] rest[i]).0 == key;
                assert(facts[0].0 != facts[i + 1].0);
            }
        }
        assert forall|k: Seq<char>| #[trigger] line_facts(line).contains_key(k) <==> exists|
            i: int,
        |
            0 <= i < facts.len() && (#[trigger] facts[i]).0 == k by {
            if k == key {
                assert(facts[0].0 == k);
            } else if line_facts(line).contains_key(k) {
                let i = choose|i: int| 0 <= i < rest.len() && (#[trigger] rest[i]).0 == k;
                assert(facts[i + 1].0 == k);
            } else {
                assert forall|i: int| 0 <= i < facts.len() implies (#[trigger] facts[i]).0 != k by {
                    if i > 0 {
                        assert(rest[i - 1].0 == facts[i].0);
                    }
                }
            }
        }
        assert forall|i: int| 0 <= i < facts.len() implies line_facts(line)[(
        #[trigger] facts[i]).0] == facts[i].1 by {
            if i > 0 {
                assert(rest[i - 1] == facts[i]);
                assert(line_facts(behind).contains_key(rest[i - 1].0));
            }
        }
    }
}

/// White space round a line changes neither its facts nor its name.
pub proof fn law_white_space_round_line(front: Seq<char>, line: Seq<char>, end: Seq<char>)
    requires
        all_white_space(front),
        all_white_space(end),
    ensures
        line_facts(front + line + end) == line_facts(line),
        line_name(front + line + end) == line_name(line),
{
    lemma_space_in_front(front, line);
    lemma_space_at_end(front + line, end);
}

proof fn lemma_space_in_front(front: Seq<char>, line: Seq<char>)
    requires
        all_white_space(front),
    ensures
        line_facts(front + line) == line_facts(line),
        line_name(front + line) == line_name(line),
{
    let pieces = split_on(line, ';');
    let padded = split_on(front + line, ';');
    lemma_split_on_nonempty(line, ';');
    assert(!front.contains(';'));
    lemma_split_padded_front(front, line, ';');
    lemma_trimmed_padded(front, pieces[0], Seq::empty());
    let parts = pieces.drop_last();
    let others = padded.drop_last();
    assert forall|i: int| 0 <= i < parts.len() implies fact_of(#[trigger] parts[i]) == fact_of(
        others[i],
    ) by {
        if i == 0 {
            lemma_padded_fact(front, parts[0]);
        }
    }
    lemma_same_facts(parts, others);
}

proof fn lemma_space_at_end(line: Seq<char>, end: Seq<char>)
    requires
        all_white_space(end),
    ensures
        line_facts(line + end) == line_facts(line),
        line_name(line + end) == line_name(line),
{
    let pieces = split_on(line, ';');
    lemma_split_on_nonempty(line, ';');
    assert(!end.contains(';'));
    lemma_split_padded_end(line, end, ';');
    lemma_trimmed_padded(Seq::empty(), pieces.last(), end);
    assert(split_on(line + end, ';').drop_last() == pieces.drop_last());
}

proof fn lemma_padded_fact(front: Seq<char>, part: Seq<char>)
    requires
        all_white_space(front),
    ensures
        fact_of(front + part) == fact_of(part),
{
    let stops = seq!['='];
    let at = first_of(part, stops);
    let whole = front + part;
    lemma_first_of(part, stops);
    assert(stops[0] == '=');
    assert forall|i: int| 0 <= i < front.len() + at implies !stops.contains(#[trigger] whole[i]) by {
        if i < front.len() {
            assert(whole[i] == front[i]);
        } else {
            assert(whole[i] == part[i - front.len()]);
        }
    }
    lemma_first_of_is(whole, stops, front.len() + at);
    if at < part.len() {
        assert(whole.take(front.len() + at) == front + part.take(at));
        assert(whole.skip(front.len() + at + 1) == part.skip(at + 1));
        lemma_trimmed_padded(front, part.take(at), Seq::empty());
    }
}

proof fn lemma_same_facts(a: Seq<Seq<char>>, b: Seq<Seq<char>>)
    requires
        a.len() == b.len(),
        forall|i: int| 0 <= i < a.len() ==> fact_of(#[trigger] a[i]) == fact_of(b[i]),
    ensures
        facts_of(a) == facts_of(b),
    decreases a.len(),
{
    if a.len() > 0 {
        assert(fact_of(a[a.len() - 1]) == fact_of(b[a.len() - 1]));
        lemma_same_facts(a.drop_last(), b.drop_last());
    }
}

} // verus!
