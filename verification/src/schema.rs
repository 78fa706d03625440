//! The header tracker: the active schema is an ordered list of field names,
//! replaced wholesale every time a `#Fields:` header line is observed.
//!
//! A header line is a comment line whose first space-delimited token is
//! exactly `#Fields:`; the remaining tokens, with `(` replaced by `-` and `)`
//! removed, become the new schema.  Any other comment line leaves the schema
//! untouched.

use vstd::prelude::*;

use crate::text::lemma_split_on_basic;
use crate::text::split_char;
use crate::text::split_on;

verus! {

/// What one character of a declared field name contributes to the normalized
/// name: `(` becomes `-`, `)` disappears, everything else is kept.
pub open spec fn norm_char(c: char) -> Seq<char> {
    if c == '(' {
        seq!['-']
    } else if c == ')' {
        seq![]
    } else {
        seq![c]
    }
}

/// A declared field name with reserved characters replaced, so it is safe as
/// a structured-document key.
pub open spec fn normalized(s: Seq<char>) -> Seq<char>
    decreases s.len(),
{
    if s.len() == 0 {
        seq![]
    } else {
        norm_char(s[0]) + normalized(s.drop_first())
    }
}

proof fn lemma_normalized_snoc(s: Seq<char>, c: char)
    ensures
        normalized(s.push(c)) == normalized(s) + norm_char(c),
    decreases s.len(),
{
    if s.len() == 0 {
        assert(s.push(c).drop_first() =~= s);
        assert(normalized(s.push(c)) =~= normalized(s) + norm_char(c));
    } else {
        assert(s.push(c).drop_first() =~= s.drop_first().push(c));
        lemma_normalized_snoc(s.drop_first(), c);
        assert(normalized(s.push(c)) =~= normalized(s) + norm_char(c));
    }
}

/// Whether `line` declares a schema: its first space-delimited token is
/// exactly `#Fields:`.
pub open spec fn is_fields_header(line: Seq<char>) -> bool {
    split_on(line, ' ')[0] == "#Fields:"@
}

/// The schema a header line declares: every space-delimited token after the
/// marker, normalized.
pub open spec fn header_fields(line: Seq<char>) -> Seq<Seq<char>> {
    split_on(line, ' ').drop_first().map_values(|t: Seq<char>| normalized(t))
}

/// The schema after one line has been observed: replaced if the line is a
/// `#Fields:` header, unchanged otherwise.
pub open spec fn observe(keys: Seq<Seq<char>>, line: Seq<char>) -> Seq<Seq<char>> {
    if is_fields_header(line) {
        header_fields(line)
    } else {
        keys
    }
}

/// Normalizes one declared field name.
pub fn normalize_field_name(name: &str) -> (r: String)
    ensures
        r@ == normalized(name@),
{
    let n = name.unicode_len();
    let mut r = String::new();
    let mut i: usize = 0;
    proof {
        assert(name@.take(0) =~= Seq::<char>::empty());
    }
    while i < n
        invariant
            n == name@.len(),
            i <= n,
            r@ == normalized(name@.take(i as int)),
        decreases n - i,
    {
        let c = name.get_char(i);
        if c == '(' {
            r.append("-");
            proof {
                reveal_strlit("-");
            }
        } else if c == ')' {
        } else {
            r.append(name.substring_char(i, i + 1));
        }
        proof {
            assert(name@.take(i + 1) =~= name@.take(i as int).push(name@[i as int]));
            lemma_normalized_snoc(name@.take(i as int), name@[i as int]);
            assert(name@.subrange(i as int, i + 1) =~= seq![name@[i as int]]);
        }
        i += 1;
    }
    proof {
        assert(name@.take(n as int) =~= name@);
    }
    r
}

/// Observes one comment line: if it is a `#Fields:` header, replaces the
/// whole schema with the normalized declared names; otherwise leaves the
/// schema as it was.
pub fn update_keys_from_header(line: &str, keys: &mut Vec<String>)
    ensures
        final(keys).deep_view() == observe(old(keys).deep_view(), line@),
{
    let tokens = split_char(line, ' ');
    proof {
        lemma_split_on_basic(line@, ' ');
        assert(tokens.deep_view().len() == tokens@.len());
    }
    let marker: String = "#Fields:".to_owned();
    if tokens[0] == marker {
        keys.clear();
        let ghost target = header_fields(line@);
        let mut i: usize = 1;
        while i < tokens.len()
            invariant
                1 <= i <= tokens@.len(),
                tokens.deep_view() == split_on(line@, ' '),
                tokens.deep_view().len() == tokens@.len(),
                target == header_fields(line@),
                keys.deep_view() =~= target.take(i - 1),
            decreases tokens@.len() - i,
        {
            let field = normalize_field_name(tokens[i].as_str());
            keys.push(field);
            proof {
                assert(target[i - 1] == normalized(tokens.deep_view()[i as int]));
                assert(target.take(i as int) =~= target.take(i - 1).push(target[i - 1]));
                assert(keys.deep_view() =~= target.take(i as int));
            }
            i += 1;
        }
        proof {
            assert(target.take(tokens@.len() - 1) =~= target);
        }
    } else {
        proof {
            assert(tokens.deep_view()[0] == tokens@[0].deep_view());
            assert(!is_fields_header(line@));
        }
    }
}

} // verus!
