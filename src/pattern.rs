//! Finding records by a regular expression on their names, with the
//! `regex` crate doing the matching.
use crate::actions::shown;
use crate::error::Error;
use crate::record::TypeModel;
use crate::types::Types;
use crate::{XML_INDENT_CHAR, XML_INDENT_SIZE};
use regex::Regex;
use vstd::prelude::*;

verus! {

#[verifier::external_type_specification]
#[verifier::external_body]
pub struct ExRegex(regex::Regex);

/// Whether `pattern` is a regular expression that the `regex` crate
/// compiles.
pub uninterp spec fn pattern_compiles(pattern: Seq<char>) -> bool;

/// Whether the regular expression `pattern` matches somewhere in `text`.
pub uninterp spec fn regex_matches(pattern: Seq<char>, text: Seq<char>) -> bool;

/// Relies on `regex::Regex::new`: it compiles `source`, or fails, as a
/// function of `source` alone.
#[verifier::external_body]
fn compile(source: &str) -> (r: Option<Regex>)
    ensures
        r is Some <==> pattern_compiles(source@),
{
    Regex::new(source).ok()
}

/// A regular expression on names, kept with its source.
#[derive(Debug)]
pub struct NamePattern {
    source: String,
    regex: Regex,
}

/// Relies on `regex::Regex::is_match`: whether the regular expression,
/// which `NamePattern::new` compiled from `p.source`, matches somewhere in
/// `text`.
#[verifier::external_body]
fn pattern_is_match(p: &NamePattern, text: &str) -> (r: bool)
    ensures
        r == regex_matches(p.source@, text@),
{
    p.regex.is_match(text)
}

impl NamePattern {
    /// The pattern compiled from `source`; `InvalidPattern` where it does
    /// not compile.
    pub fn new(source: &str) -> (r: Result<NamePattern, Error>)
        ensures
            pattern_compiles(source@) ==> r is Ok && r->Ok_0.source() == source@,
            !pattern_compiles(source@) ==> r == Err::<NamePattern, Error>(Error::InvalidPattern),
    {
        match compile(source) {
            Some(regex) => Ok(NamePattern { source: source.to_owned(), regex }),
            None => Err(Error::InvalidPattern),
        }
    }

    /// The source text of the pattern.
    pub closed spec fn source(&self) -> Seq<char> {
        self.source@
    }

    /// Whether the pattern matches somewhere in `text`.
    pub fn is_match(&self, text: &str) -> (r: bool)
        ensures
            r == regex_matches(self.source(), text@),
    {
        pattern_is_match(self, text)
    }
}

/// The records of `s` whose `hits` entry is set, in order.
pub open spec fn selected(s: Seq<TypeModel>, hits: Seq<bool>) -> Seq<TypeModel>
    decreases s.len(),
{
    if s.len() == 0 || hits.len() != s.len() {
        Seq::empty()
    } else {
        let rest = selected(s.drop_last(), hits.drop_last());
        if hits.last() {
            rest.push(s.last())
        } else {
            rest
        }
    }
}

/// Whether the pattern matches each record's name.
pub open spec fn match_hits(s: Seq<TypeModel>, pattern: Seq<char>) -> Seq<bool> {
    s.map_values(|t: TypeModel| regex_matches(pattern, t.name))
}

/// Shows records found by a pattern on their names.
#[derive(Debug)]
pub struct Find {
    pub regex: NamePattern,
    pub xml: bool,
}

impl Find {
    /// The records whose `hits` entry is set, each shown, in order.
    pub fn render_selected(&self, types: &Types, hits: &[bool]) -> (r: Vec<String>)
        requires
            hits@.len() == types@.len(),
        ensures
            r@.len() == selected(types@, hits@).len(),
            forall|k: int| 0 <= k < r@.len() ==> (#[trigger] r@[k])@ == shown(selected(types@, hits@)[k], self.xml),
    {
        let records = types.types();
        let mut out: Vec<String> = Vec::new();
        let mut i: usize = 0;
        proof {
            assert(types@.subrange(0, 0) =~= Seq::<TypeModel>::empty());
        }
        while i < records.len()
            invariant
                i <= records@.len(),
                records@.len() == types@.len() == hits@.len(),
                crate::types::models(records@) == types@,
                out@.len() == selected(types@.subrange(0, i as int), hits@.subrange(0, i as int)).len(),
                forall|k: int| 0 <= k < out@.len() ==> (#[trigger] out@[k])@ == shown(
                    selected(types@.subrange(0, i as int), hits@.subrange(0, i as int))[k],
                    self.xml,
                ),
            decreases records@.len() - i,
        {
            let ghost s1 = types@.subrange(0, i + 1);
            let ghost h1 = hits@.subrange(0, i + 1);
            proof {
                assert(s1.drop_last() =~= types@.subrange(0, i as int));
                assert(h1.drop_last() =~= hits@.subrange(0, i as int));
            }
            if hits[i] {
                let t = &records[i];
                if self.xml {
                    out.push(t.to_xml_pretty(XML_INDENT_CHAR, XML_INDENT_SIZE));
                } else {
                    out.push(t.to_string());
                }
            }
            i = i + 1;
        }
        proof {
            assert(types@.subrange(0, types@.len() as int) =~= types@);
            assert(hits@.subrange(0, hits@.len() as int) =~= hits@);
        }
        out
    }

    /// The records whose name the pattern matches, each shown, in order.
    pub fn render(&self, types: &Types) -> (r: Vec<String>)
        ensures
            r@.len() == selected(types@, match_hits(types@, self.regex.source())).len(),
            forall|k: int| 0 <= k < r@.len() ==> (#[trigger] r@[k])@ == shown(
                selected(types@, match_hits(types@, self.regex.source()))[k],
                self.xml,
            ),
    {
        let records = types.types();
        let mut hits: Vec<bool> = Vec::new();
        let mut i: usize = 0;
        while i < records.len()
            invariant
                i <= records@.len(),
                crate::types::models(records@) == types@,
                hits@.len() == i,
                forall|k: int| 0 <= k < i ==> (#[trigger] hits@[k]) == regex_matches(
                    self.regex.source(),
                    types@[k].name,
                ),
            decreases records@.len() - i,
        {
            hits.push(self.regex.is_match(records[i].get_name()));
            i = i + 1;
        }
        proof {
            assert(hits@ =~= match_hits(types@, self.regex.source()));
        }
        self.render_selected(types, hits.as_slice())
    }
}

} // verus!
