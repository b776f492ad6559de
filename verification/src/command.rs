//! Decisions as players type them: a line of words, such as `pass`,
//! `select attack 2` or `offensive france germany 1`.

use vstd::prelude::*;
use vstd::string::StringSliceAdditionalSpecFns;
use crate::io::Input;
use crate::side::Nation;
use crate::tech::TechnologyType;

verus! {

/// Whether a byte separates words: a space, a tab, or the end of a line.
pub open spec fn spec_is_blank(b: u8) -> bool {
    b == 32 || (9 <= b <= 13)
}

#[verifier::when_used_as_spec(spec_is_blank)]
pub fn is_blank(b: u8) -> (blank: bool)
    ensures
        blank == spec_is_blank(b),
{
    b == 32 || (9 <= b && b <= 13)
}

/// The words of a line: its longest runs of bytes that are not blank, in
/// order.
pub open spec fn words(line: Seq<u8>) -> Seq<Seq<u8>>
    decreases line.len(),
{
    if line.len() == 0 {
        Seq::empty()
    } else {
        let before = words(line.drop_last());
        if spec_is_blank(line.last()) {
            before
        } else if line.len() > 1 && !spec_is_blank(line[line.len() - 2]) {
            before.drop_last().push(before.last().push(line.last()))
        } else {
            before.push(seq![line.last()])
        }
    }
}

/// The number that the digits of a word make up, read as a decimal.
pub open spec fn decimal(word: Seq<u8>) -> nat
    decreases word.len(),
{
    if word.len() == 0 {
        0
    } else {
        decimal(word.drop_last()) * 10 + (word.last() - 48) as nat
    }
}

/// Whether a word is made of decimal digits only.
pub open spec fn all_digits(word: Seq<u8>) -> bool {
    forall|i: int| 0 <= i < word.len() ==> 48 <= #[trigger] word[i] <= 57
}

/// The number that a word writes: one to three decimal digits that make
/// up no more than 255.
pub open spec fn spec_number_of(word: Seq<u8>) -> Option<u8> {
    if 1 <= word.len() <= 3 && all_digits(word) && decimal(word) <= u8::MAX {
        Some(decimal(word) as u8)
    } else {
        None
    }
}

/// The category of technology that a word names.
pub open spec fn spec_category_of(word: Seq<u8>) -> Option<TechnologyType> {
    if word == "attack".spec_bytes() {
        Some(TechnologyType::Attack)
    } else if word == "defense".spec_bytes() {
        Some(TechnologyType::Defense)
    } else if word == "artillery".spec_bytes() {
        Some(TechnologyType::Artillery)
    } else if word == "air".spec_bytes() {
        Some(TechnologyType::Air)
    } else {
        None
    }
}

/// The nation that a word names.
pub open spec fn spec_nation_of(word: Seq<u8>) -> Option<Nation> {
    if word == "france".spec_bytes() {
        Some(Nation::France)
    } else if word == "italy".spec_bytes() {
        Some(Nation::Italy)
    } else if word == "russia".spec_bytes() {
        Some(Nation::Russia)
    } else if word == "egypt".spec_bytes() {
        Some(Nation::Egypt)
    } else if word == "serbia".spec_bytes() {
        Some(Nation::Serbia)
    } else if word == "romania".spec_bytes() {
        Some(Nation::Romania)
    } else if word == "greece".spec_bytes() {
        Some(Nation::Greece)
    } else if word == "frenchafrica".spec_bytes() {
        Some(Nation::FrenchAfrica)
    } else if word == "germany".spec_bytes() {
        Some(Nation::Germany)
    } else if word == "austriahungary".spec_bytes() {
        Some(Nation::AustriaHungary)
    } else if word == "ottomanempire".spec_bytes() {
        Some(Nation::OttomanEmpire)
    } else if word == "bulgaria".spec_bytes() {
        Some(Nation::Bulgaria)
    } else if word == "germanafrica".spec_bytes() {
        Some(Nation::GermanAfrica)
    } else {
        None
    }
}

/// The decision that a list of words writes: a name of a kind of
/// decision, then what that kind asks for. A list that writes none gives
/// none.
pub open spec fn command_of(list: Seq<Seq<u8>>) -> Option<Input> {
    if list.len() == 1 && list[0] == "pass".spec_bytes() {
        Some(Input::Pass)
    } else if list.len() == 2 && list[0] == "number".spec_bytes() {
        match spec_number_of(list[1]) {
            Some(n) => Some(Input::Number(n)),
            None => None,
        }
    } else if list.len() == 3 && list[0] == "select".spec_bytes() {
        match (spec_category_of(list[1]), spec_number_of(list[2])) {
            (Some(category), Some(n)) => Some(Input::Select(category, n)),
            _ => None,
        }
    } else if list.len() == 4 && list[0] == "offensive".spec_bytes() {
        match (spec_nation_of(list[1]), spec_nation_of(list[2]), spec_number_of(list[3])) {
            (Some(from), Some(to), Some(n)) => Some(Input::Offensive(from, to, n)),
            _ => None,
        }
    } else if list.len() == 3 && list[0] == "reinforce".spec_bytes() {
        match (spec_nation_of(list[1]), spec_number_of(list[2])) {
            (Some(nation), Some(n)) => Some(Input::Reinforce(nation, n)),
            _ => None,
        }
    } else if list.len() == 2 && list[0] == "hit".spec_bytes() {
        match spec_nation_of(list[1]) {
            Some(nation) => Some(Input::ApplyHit(nation)),
            None => None,
        }
    } else {
        None
    }
}

/// The decision that a line writes.
pub open spec fn spec_parse_command(line: Seq<u8>) -> Option<Input> {
    command_of(words(line))
}

/// The words of a list, each as a sequence of bytes.
pub open spec fn bytes_of(list: Seq<Vec<u8>>) -> Seq<Seq<u8>> {
    list.map_values(|word: Vec<u8>| word@)
}

/// The words of a line.
pub fn split_words(line: &[u8]) -> (list: Vec<Vec<u8>>)
    ensures
        bytes_of(list@) == words(line@),
{
    let mut list: Vec<Vec<u8>> = Vec::new();
    let mut word: Vec<u8> = Vec::new();
    let mut i: usize = 0;
    proof {
        assert(line@.take(0) =~= Seq::<u8>::empty());
        assert(bytes_of(list@) =~= Seq::<Seq<u8>>::empty());
    }
    while i < line.len()
        invariant
            i <= line@.len(),
            i > 0 && !spec_is_blank(line@[i - 1]) ==> word@.len() > 0 && words(line@.take(i as int))
                == bytes_of(list@).push(word@),
            i == 0 || spec_is_blank(line@[i - 1]) ==> word@.len() == 0 && words(
                line@.take(i as int),
            ) == bytes_of(list@),
        decreases line@.len() - i,
    {
        let b: u8 = line[i];
        proof {
            let next = line@.take(i + 1);
            assert(next.drop_last() =~= line@.take(i as int));
            assert(next.last() == b);
            if i > 0 {
                assert(next[next.len() - 2] == line@[i - 1]);
            }
        }
        if is_blank(b) {
            if word.len() > 0 {
                let ghost before = bytes_of(list@);
                list.push(word);
                word = Vec::new();
                proof {
                    assert(bytes_of(list@) =~= before.push(list@.last()@));
                }
            }
        } else {
            let ghost before = word@;
            word.push(b);
            proof {
                if i > 0 && !spec_is_blank(line@[i - 1]) {
                    let earlier = bytes_of(list@).push(before);
                    assert(earlier.drop_last() =~= bytes_of(list@));
                    assert(earlier.last() == before);
                } else {
                    assert(word@ =~= seq![b]);
                }
            }
        }
        i += 1;
    }
    proof {
        assert(line@.take(line@.len() as int) =~= line@);
    }
    if word.len() > 0 {
        let ghost before = bytes_of(list@);
        list.push(word);
        proof {
            assert(bytes_of(list@) =~= before.push(list@.last()@));
        }
    }
    list
}

/// Whether two runs of bytes are the same.
pub fn same_bytes(a: &[u8], b: &[u8]) -> (same: bool)
    ensures
        same == (a@ == b@),
{
    if a.len() != b.len() {
        return false;
    }
    let mut i: usize = 0;
    while i < a.len()
        invariant
            i <= a@.len(),
            a@.len() == b@.len(),
            forall|j: int| 0 <= j < i ==> a@[j] == b@[j],
        decreases a@.len() - i,
    {
        if a[i] != b[i] {
            return false;
        }
        i += 1;
    }
    proof {
        assert(a@ =~= b@);
    }
    true
}

/// The number that a word writes.
pub fn number_of(word: &[u8]) -> (number: Option<u8>)
    ensures
        number == spec_number_of(word@),
{
    if word.len() < 1 || word.len() > 3 {
        return None;
    }
    let mut value: u16 = 0;
    let mut i: usize = 0;
    proof {
        assert(word@.take(0) =~= Seq::<u8>::empty());
    }
    while i < word.len()
        invariant
            i <= word@.len() <= 3,
            all_digits(word@.take(i as int)),
            value == decimal(word@.take(i as int)),
            value <= 999,
            i < 3 ==> value <= 99,
            i < 2 ==> value <= 9,
            i < 1 ==> value == 0,
        decreases word@.len() - i,
    {
        let b: u8 = word[i];
        if b < 48 || b > 57 {
            proof {
                assert(word@[i as int] == b);
            }
            return None;
        }
        proof {
            let next = word@.take(i + 1);
            assert(next.drop_last() =~= word@.take(i as int));
            assert(next.last() == b);
            assert forall|j: int| 0 <= j < next.len() implies 48 <= #[trigger] next[j] <= 57 by {
                if j < i {
                    assert(next[j] == word@.take(i as int)[j]);
                }
            }
        }
        value = value * 10 + (b - 48) as u16;
        i += 1;
    }
    proof {
        assert(word@.take(word@.len() as int) =~= word@);
    }
    if value > 255 {
        None
    } else {
        Some(value as u8)
    }
}

/// The category of technology that a word names.
pub fn category_of(word: &[u8]) -> (category: Option<TechnologyType>)
    ensures
        category == spec_category_of(word@),
{
    if same_bytes(word, "attack".as_bytes()) {
        Some(TechnologyType::Attack)
    } else if same_bytes(word, "defense".as_bytes()) {
        Some(TechnologyType::Defense)
    } else if same_bytes(word, "artillery".as_bytes()) {
        Some(TechnologyType::Artillery)
    } else if same_bytes(word, "air".as_bytes()) {
        Some(TechnologyType::Air)
    } else {
        None
    }
}

/// The nation that a word names.
pub fn nation_of(word: &[u8]) -> (nation: Option<Nation>)
    ensures
        nation == spec_nation_of(word@),
{
    if same_bytes(word, "france".as_bytes()) {
        Some(Nation::France)
    } else if same_bytes(word, "italy".as_bytes()) {
        Some(Nation::Italy)
    } else if same_bytes(word, "russia".as_bytes()) {
        Some(Nation::Russia)
    } else if same_bytes(word, "egypt".as_bytes()) {
        Some(Nation::Egypt)
    } else if same_bytes(word, "serbia".as_bytes()) {
        Some(Nation::Serbia)
    } else if same_bytes(word, "romania".as_bytes()) {
        Some(Nation::Romania)
    } else if same_bytes(word, "greece".as_bytes()) {
        Some(Nation::Greece)
    } else if same_bytes(word, "frenchafrica".as_bytes()) {
        Some(Nation::FrenchAfrica)
    } else if same_bytes(word, "germany".as_bytes()) {
        Some(Nation::Germany)
    } else if same_bytes(word, "austriahungary".as_bytes()) {
        Some(Nation::AustriaHungary)
    } else if same_bytes(word, "ottomanempire".as_bytes()) {
        Some(Nation::OttomanEmpire)
    } else if same_bytes(word, "bulgaria".as_bytes()) {
        Some(Nation::Bulgaria)
    } else if same_bytes(word, "germanafrica".as_bytes()) {
        Some(Nation::GermanAfrica)
    } else {
        None
    }
}

/// Reads the decision that a line writes: `pass`, `number N`,
/// `select CATEGORY N`, `offensive NATION NATION N`, `reinforce NATION N`
/// or `hit NATION`, in lower case, the words set apart by blanks. A line
/// that writes no decision gives none.
pub fn parse_command(line: &[u8]) -> (input: Option<Input>)
    ensures
        input == spec_parse_command(line@),
{
    let list = split_words(line);
    let count: usize = list.len();
    proof {
        assert(forall|k: int| 0 <= k < count ==> bytes_of(list@)[k] == list@[k]@);
    }
    if count == 1 && same_bytes(list[0].as_slice(), "pass".as_bytes()) {
        Some(Input::Pass)
    } else if count == 2 && same_bytes(list[0].as_slice(), "number".as_bytes()) {
        match number_of(list[1].as_slice()) {
            Some(n) => Some(Input::Number(n)),
            None => None,
        }
    } else if count == 3 && same_bytes(list[0].as_slice(), "select".as_bytes()) {
        match (category_of(list[1].as_slice()), number_of(list[2].as_slice())) {
            (Some(category), Some(n)) => Some(Input::Select(category, n)),
            _ => None,
        }
    } else if count == 4 && same_bytes(list[0].as_slice(), "offensive".as_bytes()) {
        match (
            nation_of(list[1].as_slice()),
            nation_of(list[2].as_slice()),
            number_of(list[3].as_slice()),
        ) {
            (Some(from), Some(to), Some(n)) => Some(Input::Offensive(from, to, n)),
            _ => None,
        }
    } else if count == 3 && same_bytes(list[0].as_slice(), "reinforce".as_bytes()) {
        match (nation_of(list[1].as_slice()), number_of(list[2].as_slice())) {
            (Some(nation), Some(n)) => Some(Input::Reinforce(nation, n)),
            _ => None,
        }
    } else if count == 2 && same_bytes(list[0].as_slice(), "hit".as_bytes()) {
        match nation_of(list[1].as_slice()) {
            Some(nation) => Some(Input::ApplyHit(nation)),
            None => None,
        }
    } else {
        None
    }
}

} // verus!
