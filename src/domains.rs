use vstd::prelude::*;

use crate::error::LedgerError;

verus! {

/// Position of the last `.` in `s`, or -1 when there is none.
pub open spec fn last_dot(s: Seq<char>) -> int
    decreases s.len(),
{
    if s.len() == 0 {
        -1
    } else if s.last() == '.' {
        s.len() - 1
    } else {
        last_dot(s.drop_last())
    }
}

/// `last_dot` names a dot, or -1, and no dot follows it.
pub proof fn lemma_last_dot(s: Seq<char>)
    ensures
        -1 <= last_dot(s) < s.len(),
        last_dot(s) >= 0 ==> s[last_dot(s)] == '.',
        forall|k: int| last_dot(s) < k < s.len() ==> s[k] != '.',
    decreases s.len(),
{
    if s.len() > 0 && s.last() != '.' {
        lemma_last_dot(s.drop_last());
        assert forall|k: int| last_dot(s) < k < s.len() implies s[k] != '.' by {
            if k < s.len() - 1 {
                assert(s[k] == s.drop_last()[k]);
            }
        }
    }
}

/// A domain string has at least two labels exactly when it holds a dot.
pub open spec fn well_formed(s: Seq<char>) -> bool {
    last_dot(s) >= 0
}

/// Everything before the last dot.
pub open spec fn before_last(s: Seq<char>) -> Seq<char> {
    s.subrange(0, last_dot(s))
}

/// The last label.
pub open spec fn top_label(s: Seq<char>) -> Seq<char> {
    s.subrange(last_dot(s) + 1, s.len() as int)
}

/// The second-to-last label.
pub open spec fn second_label(s: Seq<char>) -> Seq<char> {
    top_label(before_last(s))
}

/// The labels in front of the second-to-last one, joined by dots; none when
/// the string has two labels only.
pub open spec fn leading_labels(s: Seq<char>) -> Option<Seq<char>> {
    if well_formed(before_last(s)) {
        Some(before_last(before_last(s)))
    } else {
        None
    }
}

/// The labels of a domain as sequences of characters.
pub struct DomainModel {
    pub top_level: Seq<char>,
    pub second_level: Seq<char>,
    pub subdomain: Option<Seq<char>>,
}

/// What parsing a well-formed string yields.
pub open spec fn parse_spec(s: Seq<char>) -> DomainModel {
    DomainModel {
        top_level: top_label(s),
        second_level: second_label(s),
        subdomain: leading_labels(s),
    }
}

/// The canonical text `[subdomain.]second_level.top_level`.
pub open spec fn format_spec(d: DomainModel) -> Seq<char> {
    match d.subdomain {
        Some(sub) => sub + seq!['.'] + d.second_level + seq!['.'] + d.top_level,
        None => d.second_level + seq!['.'] + d.top_level,
    }
}

pub open spec fn opt_view(o: Option<String>) -> Option<Seq<char>> {
    match o {
        Some(s) => Some(s@),
        None => None,
    }
}

/// A domain name split into its top-level label, its second-level label and
/// the labels in front of those, if any.
#[derive(Debug, Clone)]
pub struct Domain {
    pub tld: String,
    pub sld: String,
    pub sub: Option<String>,
}

impl View for Domain {
    type V = DomainModel;

    open spec fn view(&self) -> DomainModel {
        DomainModel { top_level: self.tld@, second_level: self.sld@, subdomain: opt_view(self.sub) }
    }
}

/// Canonicalization is idempotent: formatting a parsed well-formed string
/// gives back that string, so parsing the result again yields the same labels.
pub proof fn lemma_format_parse(s: Seq<char>)
    requires
        well_formed(s),
    ensures
        format_spec(parse_spec(s)) == s,
        well_formed(format_spec(parse_spec(s))),
        parse_spec(format_spec(parse_spec(s))) == parse_spec(s),
{
    lemma_last_dot(s);
    lemma_last_dot(before_last(s));
    assert(format_spec(parse_spec(s)) =~= s);
}

/// Finds the last dot among the first `end` characters of `s`.
fn find_last_dot(s: &str, end: usize) -> (r: Option<usize>)
    requires
        end <= s@.len(),
    ensures
        match r {
            Some(i) => i as int == last_dot(s@.subrange(0, end as int)),
            None => last_dot(s@.subrange(0, end as int)) == -1,
        },
{
    let mut i: usize = end;
    while i > 0
        invariant
            i <= end <= s@.len(),
            last_dot(s@.subrange(0, end as int)) == last_dot(s@.subrange(0, i as int)),
        decreases i,
    {
        let c = s.get_char(i - 1);
        assert(s@.subrange(0, i as int).drop_last() =~= s@.subrange(0, i - 1));
        if c == '.' {
            return Some(i - 1);
        }
        i = i - 1;
    }
    assert(s@.subrange(0, 0) =~= Seq::<char>::empty());
    None
}

impl Domain {
    /// Splits `s` at its dots: the last label is the top level, the one before
    /// it the second level, and any in front of those, joined by dots, the
    /// subdomain. A string without a dot is refused.
    pub fn parse(s: &str) -> (r: Result<Domain, LedgerError>)
        ensures
            match r {
                Ok(d) => well_formed(s@) && d@ == parse_spec(s@),
                Err(e) => !well_formed(s@) && e == LedgerError::InvalidFormat,
            },
    {
        let n = s.unicode_len();
        assert(s@.subrange(0, n as int) =~= s@);
        let i = match find_last_dot(s, n) {
            Some(i) => i,
            None => {
                return Err(LedgerError::InvalidFormat);
            },
        };
        proof {
            lemma_last_dot(s@);
        }
        let tld = String::from_str(s.substring_char(i + 1, n));
        let h: Ghost<Seq<char>> = Ghost(before_last(s@));
        assert(s@.subrange(0, i as int) == h@);
        let (sld, sub) = match find_last_dot(s, i) {
            Some(j) => {
                proof {
                    lemma_last_dot(h@);
                }
                assert(s@.subrange(j + 1, i as int) =~= h@.subrange(j + 1, h@.len() as int));
                assert(s@.subrange(0, j as int) =~= h@.subrange(0, j as int));
                (
                    String::from_str(s.substring_char(j + 1, i)),
                    Some(String::from_str(s.substring_char(0, j))),
                )
            },
            None => {
                assert(h@.subrange(0, h@.len() as int) =~= h@);
                (String::from_str(s.substring_char(0, i)), None)
            },
        };
        Ok(Domain { tld, sld, sub })
    }

    /// The canonical text of the domain, `[sub.]sld.tld`.
    pub fn to_string(&self) -> (r: String)
        ensures
            r@ == format_spec(self@),
    {
        proof {
            reveal_strlit(".");
        }
        let mut r = match &self.sub {
            Some(sub) => {
                let mut r = String::from_str(sub.as_str());
                r.append(".");
                r
            },
            None => String::new(),
        };
        r.append(self.sld.as_str());
        r.append(".");
        r.append(self.tld.as_str());
        proof {
            if self.sub is None {
                assert(r@ =~= format_spec(self@));
            }
        }
        r
    }
}

impl std::str::FromStr for Domain {
    type Err = LedgerError;

    fn from_str(s: &str) -> Result<Domain, LedgerError> {
        Domain::parse(s)
    }
}

/// A resolvable record, scoped to an optional subdomain. An absent target or
/// payload clears that slot.
#[derive(Debug, Clone)]
pub enum Record {
    A { index: Option<String>, target: Option<[u8; 4]> },
    AAAA { index: Option<String>, target: Option<[u8; 16]> },
    CNAME { index: Option<String>, target: Option<Domain> },
    NS { index: Option<String>, target: Option<Domain> },
    PTR { index: Option<String>, target: Option<Domain> },
    TXT { index: Option<String>, data: Option<String> },
    SRV { at: Option<String>, priority: u16, weight: u16, port: u16, target: Option<Domain> },
}

} // verus!
