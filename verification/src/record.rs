//! Records: the field-name / value pairs decoded from one data line.
//!
//! A record is built by positionally zipping the active schema with the
//! tab-split tokens of a data line, truncating to the shorter of the two —
//! extra tokens or extra field names are dropped, as a documented policy.
//! Enrichment then reads the record's query-string field and, when a
//! `pk_campaign=...` parameter is present, stores its value under the
//! `campaign` field.

use vstd::prelude::*;

use crate::errors::PipelineError;
use crate::text::split_char;
use crate::text::split_on;

verus! {

/// An ordered list of field-name / value pairs.  Schemas declare unique
/// names, so a name settles at most one pair; lookups take the first match.
pub struct Record {
    pub fields: Vec<(String, String)>,
}

impl View for Record {
    type V = Seq<(Seq<char>, Seq<char>)>;

    open spec fn view(&self) -> Seq<(Seq<char>, Seq<char>)> {
        self.fields.deep_view()
    }
}

/// Index of the first pair of `rec` whose name is `key`, or `rec.len()` if
/// there is none.
pub open spec fn key_at(rec: Seq<(Seq<char>, Seq<char>)>, key: Seq<char>) -> int
    decreases rec.len(),
{
    if rec.len() == 0 {
        0
    } else if rec[0].0 == key {
        0
    } else {
        1 + key_at(rec.drop_first(), key)
    }
}

pub proof fn lemma_key_at(rec: Seq<(Seq<char>, Seq<char>)>, key: Seq<char>)
    ensures
        0 <= key_at(rec, key) <= rec.len(),
        key_at(rec, key) < rec.len() ==> rec[key_at(rec, key)].0 == key,
        forall|j: int| 0 <= j < key_at(rec, key) ==> rec[j].0 != key,
    decreases rec.len(),
{
    if rec.len() == 0 {
    } else if rec[0].0 == key {
    } else {
        lemma_key_at(rec.drop_first(), key);
        assert forall|j: int| 0 <= j < key_at(rec, key) implies rec[j].0 != key by {
            if j > 0 {
                assert(rec.drop_first()[j - 1].0 != key);
            }
        }
    }
}

/// Whether some pair of `rec` is named `key`.
pub open spec fn has_key(rec: Seq<(Seq<char>, Seq<char>)>, key: Seq<char>) -> bool {
    key_at(rec, key) < rec.len()
}

/// The value of the first pair of `rec` named `key`.
pub open spec fn value_of(rec: Seq<(Seq<char>, Seq<char>)>, key: Seq<char>) -> Seq<char> {
    rec[key_at(rec, key)].1
}

/// `rec` with the value of `key` set to `val`: in place when a pair named
/// `key` exists, appended otherwise.
pub open spec fn with_value(
    rec: Seq<(Seq<char>, Seq<char>)>,
    key: Seq<char>,
    val: Seq<char>,
) -> Seq<(Seq<char>, Seq<char>)> {
    if has_key(rec, key) {
        rec.update(key_at(rec, key), (key, val))
    } else {
        rec.push((key, val))
    }
}

impl Record {
    /// The value stored under `key`, if any.
    pub fn get_value(&self, key: &String) -> (r: Option<String>)
        ensures
            match r {
                Some(v) => has_key(self@, key@) && v@ == value_of(self@, key@),
                None => !has_key(self@, key@),
            },
    {
        let n = self.fields.len();
        let mut j: usize = 0;
        while j < n
            invariant
                n == self@.len(),
                j <= n,
                forall|i: int| 0 <= i < j ==> self@[i].0 != key@,
            decreases n - j,
        {
            let hit = self.fields[j].0 == *key;
            proof {
                assert(self@[j as int] == self.fields@[j as int].deep_view());
            }
            if hit {
                proof {
                    lemma_key_at(self@, key@);
                    assert(key_at(self@, key@) == j);
                }
                return Some(self.fields[j].1.clone());
            }
            j += 1;
        }
        proof {
            lemma_key_at(self@, key@);
        }
        None
    }

    /// Stores `val` under `key`, replacing the first pair of that name or
    /// appending a new pair.
    pub fn set_value(&mut self, key: String, val: String)
        ensures
            final(self)@ == with_value(old(self)@, key@, val@),
    {
        let n = self.fields.len();
        let mut j: usize = 0;
        while j < n
            invariant
                n == self@.len(),
                j <= n,
                *self == *old(self),
                forall|i: int| 0 <= i < j ==> self@[i].0 != key@,
            decreases n - j,
        {
            let hit = self.fields[j].0 == key;
            proof {
                assert(self@[j as int] == self.fields@[j as int].deep_view());
            }
            if hit {
                proof {
                    lemma_key_at(self@, key@);
                    assert(key_at(self@, key@) == j);
                }
                self.fields.set(j, (key, val));
                proof {
                    assert(self@ =~= with_value(old(self)@, key@, val@));
                }
                return ;
            }
            j += 1;
        }
        proof {
            lemma_key_at(self@, key@);
        }
        self.fields.push((key, val));
        proof {
            assert(self@ =~= with_value(old(self)@, key@, val@));
        }
    }
}

/// The record a data line yields under schema `keys`: schema names zipped
/// positionally with the tab-split tokens of the line, truncated to the
/// shorter of the two.
pub open spec fn zip_record(
    keys: Seq<Seq<char>>,
    toks: Seq<Seq<char>>,
) -> Seq<(Seq<char>, Seq<char>)> {
    Seq::new(vstd::math::min(keys.len() as int, toks.len() as int) as nat, |i: int| (keys[i], toks[i]))
}

/// The record decoded from `line` under schema `keys`.
pub open spec fn record_of(keys: Seq<Seq<char>>, line: Seq<char>) -> Seq<(Seq<char>, Seq<char>)> {
    zip_record(keys, split_on(line, '\t'))
}

/// Decodes one data line under the schema `keys`.
pub fn decode_data_line(line: &str, keys: &Vec<String>) -> (r: Record)
    ensures
        r@ == record_of(keys.deep_view(), line@),
{
    let toks = split_char(line, '\t');
    let m = if keys.len() < toks.len() {
        keys.len()
    } else {
        toks.len()
    };
    let mut fields: Vec<(String, String)> = Vec::new();
    let mut i: usize = 0;
    while i < m
        invariant
            m == vstd::math::min(keys.deep_view().len() as int, toks.deep_view().len() as int),
            m <= keys@.len() && m <= toks@.len(),
            i <= m,
            toks.deep_view() == split_on(line@, '\t'),
            fields.deep_view() =~= zip_record(keys.deep_view(), toks.deep_view()).take(i as int),
        decreases m - i,
    {
        fields.push((keys[i].clone(), toks[i].clone()));
        proof {
            let z = zip_record(keys.deep_view(), toks.deep_view());
            assert(z.take(i + 1) =~= z.take(i as int).push(z[i as int]));
        }
        i += 1;
    }
    proof {
        let z = zip_record(keys.deep_view(), toks.deep_view());
        assert(z.take(m as int) =~= z);
    }
    Record { fields }
}

/// The value of the last well-formed `pk_campaign=...` parameter among
/// `params`, if any.  A parameter is well formed when splitting it on `=`
/// yields exactly two parts; malformed parameters are ignored.
pub open spec fn campaign_in(params: Seq<Seq<char>>) -> Option<Seq<char>>
    decreases params.len(),
{
    if params.len() == 0 {
        None
    } else {
        let kv = split_on(params.last(), '=');
        if kv.len() == 2 && kv[0] == "pk_campaign"@ {
            Some(kv[1])
        } else {
            campaign_in(params.drop_last())
        }
    }
}

/// The campaign tag carried by the query string `query`, if any: the value
/// of the last well-formed `pk_campaign=...` among its `&`-separated
/// parameters.
pub open spec fn campaign_of(query: Seq<char>) -> Option<Seq<char>> {
    campaign_in(split_on(query, '&'))
}

/// The record after enrichment, or `None` when the record holds no
/// `cs-uri-query` field (a fatal lookup error).
pub open spec fn enriched(rec: Seq<(Seq<char>, Seq<char>)>) -> Option<Seq<(Seq<char>, Seq<char>)>> {
    if !has_key(rec, "cs-uri-query"@) {
        None
    } else {
        match campaign_of(value_of(rec, "cs-uri-query"@)) {
            Option::None => Some(rec),
            Option::Some(v) => Some(with_value(rec, "campaign"@, v)),
        }
    }
}

/// Enriches `data` in place: reads its `cs-uri-query` field, and when the
/// query string carries a `pk_campaign=...` parameter, stores the campaign
/// value under `campaign`.  Fails, leaving the record unchanged, when the
/// record holds no `cs-uri-query` field.
pub fn add_metadata(data: &mut Record) -> (r: Result<(), PipelineError>)
    ensures
        match r {
            Ok(_) => Some(final(data)@) == enriched(old(data)@),
            Err(e) => {
                &&& enriched(old(data)@) is None
                &&& final(data)@ == old(data)@
                &&& e is MissingField
            },
        },
{
    let query_key: String = "cs-uri-query".to_owned();
    let get_params = match data.get_value(&query_key) {
        Some(q) => q,
        None => {
            return Err(PipelineError::MissingField);
        },
    };
    let params = split_char(get_params.as_str(), '&');
    let marker: String = "pk_campaign".to_owned();
    let mut found: Option<String> = None;
    let n = params.len();
    let ghost pview = params.deep_view();
    let mut j: usize = 0;
    proof {
        assert(pview.take(0) =~= Seq::<Seq<char>>::empty());
    }
    while j < n
        invariant
            n == pview.len(),
            j <= n,
            pview == params.deep_view(),
            marker@ == "pk_campaign"@,
            match found {
                Option::Some(f) => campaign_in(pview.take(j as int)) == Some(f@),
                Option::None => campaign_in(pview.take(j as int)) is None,
            },
        decreases n - j,
    {
        let kv = split_char(params[j].as_str(), '=');
        if kv.len() == 2 && kv[0] == marker {
            found = Some(kv[1].clone());
        }
        proof {
            assert(pview.take(j + 1).last() == pview[j as int]);
            assert(pview.take(j + 1).drop_last() =~= pview.take(j as int));
        }
        j += 1;
    }
    proof {
        assert(pview.take(n as int) =~= pview);
    }
    match found {
        Some(v) => {
            data.set_value("campaign".to_owned(), v);
        },
        None => {},
    }
    Ok(())
}

} // verus!
