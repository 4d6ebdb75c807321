//! Tokens: the dash-prefixed text that stands for one query parameter.

use vstd::prelude::*;

verus! {

/// A query string as contracts see it: the pairs of key and value, in the
/// order of the URL.
pub type Entries = Seq<(Seq<char>, Seq<char>)>;

/// One entry of the host's query string, as the host reports it: already
/// decoded, in the order of the URL. A flag without a value has the empty
/// value. Keys may repeat.
#[derive(Debug)]
pub struct RawParameter {
    pub key: String,
    pub value: String,
}

impl View for RawParameter {
    type V = (Seq<char>, Seq<char>);

    open spec fn view(&self) -> (Seq<char>, Seq<char>) {
        (self.key@, self.value@)
    }
}

impl DeepView for RawParameter {
    type V = (Seq<char>, Seq<char>);

    open spec fn deep_view(&self) -> (Seq<char>, Seq<char>) {
        self@
    }
}

impl RawParameter {
    /// An entry with the given key and value.
    pub fn new(key: &str, value: &str) -> (entry: RawParameter)
        ensures
            entry@ == (key@, value@),
    {
        RawParameter { key: key.to_owned(), value: value.to_owned() }
    }
}

impl Clone for RawParameter {
    fn clone(&self) -> (copy: RawParameter)
        ensures
            copy@ == self@,
    {
        RawParameter { key: self.key.clone(), value: self.value.clone() }
    }
}

/// The dashes in front of `key`: one for a key of exactly one character,
/// two for every other key, the empty key included.
pub open spec fn dashes_of(key: Seq<char>) -> Seq<char> {
    if key.len() == 1 {
        seq!['-']
    } else {
        seq!['-', '-']
    }
}

/// The token that stands for the pair `(key, value)`: dashes, the key, and,
/// unless the value is empty, `=` and the value.
pub open spec fn token_of(key: Seq<char>, value: Seq<char>) -> Seq<char> {
    if value.len() == 0 {
        dashes_of(key) + key
    } else {
        dashes_of(key) + key + seq!['='] + value
    }
}

/// Formats one query parameter as a command-line token.
///
/// Nothing is escaped or quoted: key and value are taken as they are.
pub fn format_token(key: &str, value: &str) -> (token: String)
    ensures
        token@ == token_of(key@, value@),
{
    let dashes = if key.unicode_len() == 1 {
        "-"
    } else {
        "--"
    };
    proof {
        reveal_strlit("-");
        reveal_strlit("--");
        reveal_strlit("=");
        assert(dashes@ =~= dashes_of(key@));
    }
    let mut token = String::from_str(dashes);
    token.append(key);
    if !value.is_empty() {
        token.append("=");
        token.append(value);
    }
    token
}

/// The argument list that stands for a location: its path first, as it is,
/// then one token for each entry of the query string, in their order.
pub open spec fn parameters_of(path: Seq<char>, entries: Entries) -> Seq<Seq<char>> {
    seq![path] + entries.map_values(|entry: (Seq<char>, Seq<char>)| token_of(entry.0, entry.1))
}

/// The command line that a location stands for.
///
/// `path` is the location without query string and fragment, `entries` the
/// query string's entries in the order of the URL. The path comes first and is
/// never given a dash; every entry follows as one token, repeated keys too.
pub fn get_program_parameters(path: &str, entries: &Vec<RawParameter>) -> (parameters: Vec<String>)
    ensures
        parameters.deep_view() == parameters_of(path@, entries.deep_view()),
{
    let mut parameters: Vec<String> = Vec::new();
    parameters.push(path.to_owned());
    let mut i: usize = 0;
    while i < entries.len()
        invariant
            i <= entries.len(),
            parameters.len() == i + 1,
            parameters[0]@ == path@,
            forall|k: int|
                0 <= k < i ==> (#[trigger] parameters[k + 1])@ == token_of(
                    entries[k].key@,
                    entries[k].value@,
                ),
        decreases entries.len() - i,
    {
        let entry = &entries[i];
        parameters.push(format_token(entry.key.as_str(), entry.value.as_str()));
        i = i + 1;
    }
    proof {
        let expected = parameters_of(path@, entries.deep_view());
        assert(parameters.deep_view().len() == expected.len());
        assert forall|j: int| 0 <= j < expected.len() implies parameters.deep_view()[j]
            == expected[j] by {
            if j > 0 {
                assert(parameters[(j - 1) + 1]@ == token_of(
                    entries[j - 1].key@,
                    entries[j - 1].value@,
                ));
            }
        }
        assert(parameters.deep_view() =~= expected);
    }
    parameters
}

/// The argument list is one longer than the query string: the path, then one
/// token for each entry, at the entry's place.
pub proof fn lemma_one_token_for_each_entry(path: Seq<char>, entries: Entries)
    ensures
        parameters_of(path, entries).len() == entries.len() + 1,
        parameters_of(path, entries)[0] == path,
        forall|i: int|
            0 <= i < entries.len() ==> #[trigger] parameters_of(path, entries)[i + 1] == token_of(
                entries[i].0,
                entries[i].1,
            ),
{
}

/// A location without a query string gives the path and nothing else.
pub proof fn lemma_path_alone(path: Seq<char>)
    ensures
        parameters_of(path, Seq::empty()) == seq![path],
{
    assert(parameters_of(path, Seq::empty()) =~= seq![path]);
}

/// A key of exactly one character is written behind a single dash, every
/// other key, the empty one too, behind two.
pub proof fn lemma_dashes_by_key_length(key: Seq<char>, value: Seq<char>)
    ensures
        key.len() == 1 ==> token_of(key, value).take(key.len() + 1 as int) == seq!['-'] + key,
        key.len() != 1 ==> token_of(key, value).take(key.len() + 2 as int) == seq!['-', '-'] + key,
{
    if key.len() == 1 {
        assert(token_of(key, value).take(key.len() + 1 as int) =~= seq!['-'] + key);
    } else {
        assert(token_of(key, value).take(key.len() + 2 as int) =~= seq!['-', '-'] + key);
    }
}

} // verus!
