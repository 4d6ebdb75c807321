//! Taking one token apart into its name and its value.

use vstd::prelude::*;
use vstd::std_specs::iter::IteratorSpec;

use crate::token::{dashes_of, token_of};

verus! {

/// How many leading dashes are stripped from `token`: two where it starts
/// with two, one where it starts with one only, none where it starts with none.
pub open spec fn dashes_stripped(token: Seq<char>) -> int {
    if token.len() >= 2 && token[0] == '-' && token[1] == '-' {
        2
    } else if token.len() >= 1 && token[0] == '-' {
        1
    } else {
        0
    }
}

/// What a token says: `None` for text that does not start with a dash, else the
/// name and the value.
///
/// Behind the stripped dashes the first `=` parts the name from the value. A
/// value that is missing and an empty value behind `=` are both no value.
pub open spec fn parsed(token: Seq<char>) -> Option<(Seq<char>, Option<Seq<char>>)> {
    if dashes_stripped(token) == 0 {
        None
    } else {
        let rest = token.skip(dashes_stripped(token));
        match rest.index_of_first('=') {
            Some(at) => Some(
                (
                    rest.take(at),
                    if at + 1 < rest.len() {
                        Some(rest.skip(at + 1))
                    } else {
                        None
                    },
                ),
            ),
            None => Some((rest, None)),
        }
    }
}

/// The view of an optional piece of text.
pub open spec fn text_of(piece: Option<&str>) -> Option<Seq<char>> {
    match piece {
        Some(text) => Some(text@),
        None => None,
    }
}

/// `at` is where the first `=` of `text` stands, or its length where it holds none.
pub open spec fn is_first_equals(text: Seq<char>, at: int) -> bool {
    &&& 0 <= at <= text.len()
    &&& forall|j: int| 0 <= j < at ==> text[j] != '='
    &&& at < text.len() ==> text[at] == '='
}

/// The position that `is_first_equals` describes is the one that
/// `index_of_first` finds.
pub proof fn lemma_first_equals(text: Seq<char>, at: int)
    requires
        is_first_equals(text, at),
    ensures
        at < text.len() ==> text.index_of_first('=') == Some(at),
        at == text.len() ==> text.index_of_first('=') is None,
{
    text.index_of_first_ensures('=');
}

/// Parses one token into `(name, value)`.
///
/// Returns `None` when `param` does not start with one or two dashes. Nothing
/// else is asked of it: the name may be empty and may hold further dashes.
pub fn easy_parse(param: &str) -> (result: Option<(&str, Option<&str>)>)
    ensures
        match result {
            Some((name, value)) => parsed(param@) == Some((name@, text_of(value))),
            None => parsed(param@) is None,
        },
        result is None <==> param@.len() == 0 || param@[0] != '-',
{
    let len = param.unicode_len();
    if len == 0 || param.get_char(0) != '-' {
        return None;
    }
    let skip: usize = if len >= 2 && param.get_char(1) == '-' {
        2
    } else {
        1
    };
    let rest = param.substring_char(skip, len);
    let rest_len: usize = len - skip;
    assert(rest@ =~= param@.skip(skip as int));
    let at = find_equals(rest, rest_len);
    proof {
        lemma_first_equals(rest@, at as int);
    }
    let name = rest.substring_char(0, at);
    assert(name@ =~= rest@.take(at as int));
    if rest_len - at > 1 {
        let value = rest.substring_char(at + 1, rest_len);
        assert(value@ =~= rest@.skip(at + 1));
        Some((name, Some(value)))
    } else {
        Some((name, None))
    }
}

/// Finds the first `=` of `text`, counted in characters; `len` is the number
/// of characters in `text`.
fn find_equals(text: &str, len: usize) -> (at: usize)
    requires
        len == text@.len(),
    ensures
        is_first_equals(text@, at as int),
{
    let mut chars = text.chars();
    let mut at: usize = 0;
    loop
        invariant_except_break
            chars.remaining() == text@.skip(at as int),
        invariant
            at <= len,
            len == text@.len(),
            forall|j: int| 0 <= j < at ==> text@[j] != '=',
        ensures
            is_first_equals(text@, at as int),
        decreases len - at,
    {
        match chars.next() {
            Some(c) => {
                if c == '=' {
                    break ;
                }
                at = at + 1;
            },
            None => {
                break ;
            },
        }
    }
    at
}

/// A name comes back from its token as it went in: it holds no `=`, and it is
/// not the single dash, which behind its own dash reads as two.
pub open spec fn survives_formatting(name: Seq<char>) -> bool {
    &&& !name.contains('=')
    &&& name != seq!['-']
}

/// Behind the dashes that formatting puts in front of such a name, parsing
/// finds what formatting wrote.
proof fn lemma_dashes_come_off(name: Seq<char>, tail: Seq<char>)
    requires
        survives_formatting(name),
        tail.len() == 0 || tail[0] == '=',
    ensures
        dashes_stripped(dashes_of(name) + name + tail) == dashes_of(name).len(),
        (dashes_of(name) + name + tail).skip(dashes_of(name).len() as int) == name + tail,
{
    let token = dashes_of(name) + name + tail;
    if name.len() == 1 {
        assert(token[1] == name[0]);
        assert(name[0] != '-') by {
            if name[0] == '-' {
                assert(name =~= seq!['-']);
            }
        }
    } else {
        assert(token[0] == '-' && token[1] == '-');
    }
    assert(token.skip(dashes_of(name).len() as int) =~= name + tail);
}

/// Formatting a name with a value and parsing the token gives both back.
pub proof fn lemma_round_trip(name: Seq<char>, value: Seq<char>)
    requires
        survives_formatting(name),
        value.len() > 0,
    ensures
        parsed(token_of(name, value)) == Some((name, Some(value))),
{
    let tail = seq!['='] + value;
    let rest = name + tail;
    assert(token_of(name, value) =~= dashes_of(name) + name + tail);
    lemma_dashes_come_off(name, tail);
    assert(is_first_equals(rest, name.len() as int)) by {
        assert forall|j: int| 0 <= j < name.len() implies rest[j] != '=' by {
            assert(name.contains(name[j]));
        }
    }
    lemma_first_equals(rest, name.len() as int);
    assert(rest.take(name.len() as int) =~= name);
    assert(rest.skip(name.len() + 1 as int) =~= value);
}

/// Formatting a name with the empty value and parsing the token gives the
/// name and no value: the token does not tell an empty value from none.
pub proof fn lemma_empty_value_is_lost(name: Seq<char>)
    requires
        survives_formatting(name),
    ensures
        parsed(token_of(name, Seq::empty())) == Some((name, None::<Seq<char>>)),
{
    let tail = Seq::<char>::empty();
    assert(token_of(name, Seq::empty()) =~= dashes_of(name) + name + tail);
    lemma_dashes_come_off(name, tail);
    assert(name + tail =~= name);
    assert(is_first_equals(name, name.len() as int)) by {
        assert forall|j: int| 0 <= j < name.len() implies name[j] != '=' by {
            assert(name.contains(name[j]));
        }
    }
    lemma_first_equals(name, name.len() as int);
}

/// No other name comes back: the single dash is read as the empty name, and
/// a name with `=` in it is cut at its first `=`.
pub proof fn lemma_other_names_are_cut(name: Seq<char>, value: Seq<char>)
    requires
        !survives_formatting(name),
    ensures
        parsed(token_of(name, value)) matches Some(found) && found.0.len() < name.len(),
{
    let tail = if value.len() == 0 {
        Seq::<char>::empty()
    } else {
        seq!['='] + value
    };
    let token = dashes_of(name) + name + tail;
    assert(token_of(name, value) =~= token);
    if name =~= seq!['-'] {
        assert(token[0] == '-' && token[1] == '-');
        assert(dashes_stripped(token) == 2);
        let rest = token.skip(2);
        assert(rest =~= tail);
        rest.index_of_first_ensures('=');
        if rest.len() > 0 {
            assert(is_first_equals(rest, 0));
            lemma_first_equals(rest, 0);
        }
    } else {
        let at = choose|at: int| 0 <= at < name.len() && name[at] == '=';
        if name.len() == 1 {
            assert(token[1] == name[0]);
        } else {
            assert(token[0] == '-' && token[1] == '-');
        }
        assert(dashes_stripped(token) == dashes_of(name).len());
        let rest = token.skip(dashes_of(name).len() as int);
        assert(rest =~= name + tail);
        assert(rest[at] == '=');
        rest.index_of_first_ensures('=');
        let found = rest.index_of_first('=').unwrap();
        assert(found <= at) by {
            if at < found {
                assert(rest[at] != '=');
            }
        }
    }
}

/// A parsed name holds no `=`, and a parsed value is never empty.
pub proof fn lemma_parsed_pieces(token: Seq<char>)
    ensures
        parsed(token) matches Some(found) ==> !found.0.contains('=') && (found.1 matches Some(
            value,
        ) ==> value.len() > 0),
{
    if dashes_stripped(token) > 0 {
        let rest = token.skip(dashes_stripped(token));
        rest.index_of_first_ensures('=');
        match rest.index_of_first('=') {
            Some(at) => {
                let name = rest.take(at);
                assert forall|j: int| 0 <= j < name.len() implies name[j] != '=' by {
                    assert(name[j] == rest[j]);
                }
            },
            None => {},
        }
    }
}

/// Text that does not start with a dash is no parameter, and all other text is one.
pub proof fn lemma_parameter_iff_dash(token: Seq<char>)
    ensures
        parsed(token) is None <==> !(token.len() > 0 && token[0] == '-'),
{
}

} // verus!
