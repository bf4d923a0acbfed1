//! Exclusion rules: their text form and how a rule set judges a mirror.
use vstd::prelude::*;
use vstd::string::*;

use crate::error::Error;
use crate::text::{
    chars_of, comment_end, opt_view, lower_of, lowercase, skip_space, skip_space_from, skip_word,
    skip_word_from, slice_chars, strip_comment, trim, trim_bounds,
};

verus! {

/// Which key of a mirror a rule is compared with.
#[derive(Debug, Clone, Copy, PartialEq, Eq, Structural)]
pub enum Field {
    Domain,
    Country,
    CountryCode,
}

/// A rule as a value: the key it reads, whether it is negated, and the lowercase text it matches.
pub type RuleView = (Field, bool, Seq<char>);

/// One line of rule text, read: a rule on a domain, a country or a country code, each
/// possibly negated, or nothing.
#[derive(Debug, PartialEq, Eq)]
pub enum ExcludeKind {
    Ignore,
    Domain(String),
    NegateDomain(String),
    Country(String),
    NegateCountry(String),
    CountryCode(String),
    NegateCountryCode(String),
}

impl ExcludeKind {
    /// The rule this value stands for; `None` for a line that holds no rule.
    pub open spec fn rule(self) -> Option<RuleView> {
        match self {
            ExcludeKind::Ignore => None,
            ExcludeKind::Domain(v) => Some((Field::Domain, false, v@)),
            ExcludeKind::NegateDomain(v) => Some((Field::Domain, true, v@)),
            ExcludeKind::Country(v) => Some((Field::Country, false, v@)),
            ExcludeKind::NegateCountry(v) => Some((Field::Country, true, v@)),
            ExcludeKind::CountryCode(v) => Some((Field::CountryCode, false, v@)),
            ExcludeKind::NegateCountryCode(v) => Some((Field::CountryCode, true, v@)),
        }
    }
}

/// The keyword that introduces a rule on `f`.
pub open spec fn keyword(f: Field) -> Seq<char> {
    match f {
        Field::Domain => seq!['d', 'o', 'm', 'a', 'i', 'n'],
        Field::Country => seq!['c', 'o', 'u', 'n', 't', 'r', 'y'],
        Field::CountryCode => seq!['c', 'o', 'u', 'n', 't', 'r', 'y', '_', 'c', 'o', 'd', 'e'],
    }
}

/// Whether the keyword of `f`, optional white space and `=` stand at index `i` of `l`.
pub open spec fn keyword_at(l: Seq<char>, f: Field, i: int) -> bool {
    let k = keyword(f);
    let eq = skip_space(l, i + k.len());
    &&& 0 <= i
    &&& i + k.len() <= l.len()
    &&& l.subrange(i, i + k.len()) == k
    &&& eq < l.len()
    &&& l[eq] == '='
}

/// The leftmost index at or after `i` at which the keyword of `f` is followed by `=`.
pub open spec fn find_keyword(l: Seq<char>, f: Field, i: int) -> Option<int>
    decreases l.len() - i,
{
    if 0 <= i < l.len() {
        if keyword_at(l, f, i) {
            Some(i)
        } else {
            find_keyword(l, f, i + 1)
        }
    } else {
        None
    }
}

/// The rule written `[!]keyword = value` at index `i` of `l`: negated when `!` stands just
/// before the keyword; its value is the run of non-space characters after `=` and any space.
pub open spec fn keyword_rule(l: Seq<char>, f: Field, i: int) -> RuleView {
    let eq = skip_space(l, i + keyword(f).len());
    let v0 = skip_space(l, eq + 1);
    (f, i > 0 && l[i - 1] == '!', l.subrange(v0, skip_word(l, v0)))
}

/// The rule that a comment-free, trimmed, lowercase line states. Keywords are tried in the
/// order domain, country, country code; a line with none of them names a domain, negated
/// by a leading `!`.
pub open spec fn rule_of_normalized(l: Seq<char>) -> Option<RuleView> {
    if l.len() == 0 {
        None
    } else if find_keyword(l, Field::Domain, 0) is Some {
        Some(keyword_rule(l, Field::Domain, find_keyword(l, Field::Domain, 0)->0))
    } else if find_keyword(l, Field::Country, 0) is Some {
        Some(keyword_rule(l, Field::Country, find_keyword(l, Field::Country, 0)->0))
    } else if find_keyword(l, Field::CountryCode, 0) is Some {
        Some(keyword_rule(l, Field::CountryCode, find_keyword(l, Field::CountryCode, 0)->0))
    } else if l[0] == '!' {
        Some((Field::Domain, true, l.drop_first()))
    } else {
        Some((Field::Domain, false, l))
    }
}

/// A line with its comment and surrounding white space removed.
pub open spec fn normalize(line: Seq<char>) -> Seq<char> {
    trim(strip_comment(trim(line)))
}

/// The rule that one line of rule text states, if any.
pub open spec fn rule_of_line(line: Seq<char>) -> Option<RuleView> {
    if line.len() == 0 {
        None
    } else {
        rule_of_normalized(lower_of(normalize(line)))
    }
}

fn keyword_chars(f: Field) -> (r: Vec<char>)
    ensures
        r@ == keyword(f),
{
    let r = match f {
        Field::Domain => vec!['d', 'o', 'm', 'a', 'i', 'n'],
        Field::Country => vec!['c', 'o', 'u', 'n', 't', 'r', 'y'],
        Field::CountryCode => vec!['c', 'o', 'u', 'n', 't', 'r', 'y', '_', 'c', 'o', 'd', 'e'],
    };
    assert(r@ =~= keyword(f));
    r
}

fn keyword_at_index(l: &Vec<char>, f: Field, kw: &Vec<char>, i: usize) -> (r: bool)
    requires
        kw@ == keyword(f),
        i < l@.len(),
    ensures
        r == keyword_at(l@, f, i as int),
{
    if kw.len() > l.len() - i {
        return false;
    }
    let end = i + kw.len();
    let mut j: usize = 0;
    while j < kw.len()
        invariant
            kw@ == keyword(f),
            end == i + kw@.len(),
            end <= l@.len(),
            j <= kw@.len(),
            l@.subrange(i as int, i + j) == kw@.take(j as int),
        decreases kw@.len() - j,
    {
        if l[i + j] != kw[j] {
            assert(l@.subrange(i as int, end as int)[j as int] != kw@[j as int]);
            return false;
        }
        j = j + 1;
        assert(l@.subrange(i as int, i + j) =~= kw@.take(j as int));
    }
    assert(kw@.take(j as int) =~= kw@);
    let eq = skip_space_from(l, end);
    eq < l.len() && l[eq] == '='
}

fn find_keyword_index(l: &Vec<char>, f: Field) -> (r: Option<usize>)
    ensures
        r is Some <==> find_keyword(l@, f, 0) is Some,
        r is Some ==> find_keyword(l@, f, 0) == Some(r->0 as int) && r->0 < l@.len()
            && keyword_at(l@, f, r->0 as int),
{
    let kw = keyword_chars(f);
    let mut i: usize = 0;
    while i < l.len()
        invariant
            kw@ == keyword(f),
            i <= l@.len(),
            find_keyword(l@, f, 0) == find_keyword(l@, f, i as int),
        decreases l@.len() - i,
    {
        if keyword_at_index(l, f, &kw, i) {
            return Some(i);
        }
        i = i + 1;
    }
    None
}

fn make_rule(f: Field, negated: bool, value: String) -> (r: ExcludeKind)
    ensures
        r.rule() == Some((f, negated, value@)),
{
    match (f, negated) {
        (Field::Domain, false) => ExcludeKind::Domain(value),
        (Field::Domain, true) => ExcludeKind::NegateDomain(value),
        (Field::Country, false) => ExcludeKind::Country(value),
        (Field::Country, true) => ExcludeKind::NegateCountry(value),
        (Field::CountryCode, false) => ExcludeKind::CountryCode(value),
        (Field::CountryCode, true) => ExcludeKind::NegateCountryCode(value),
    }
}

fn rule_at(l: &str, cs: &Vec<char>, f: Field, i: usize) -> (r: ExcludeKind)
    requires
        cs@ == l@,
        keyword_at(l@, f, i as int),
    ensures
        r.rule() == Some(keyword_rule(l@, f, i as int)),
{
    let kw = keyword_chars(f);
    // The vector's length is a `usize`, which bounds every index below.
    let _len = cs.len();
    let eq = skip_space_from(cs, i + kw.len());
    let v0 = skip_space_from(cs, eq + 1);
    let v1 = skip_word_from(cs, v0);
    let negated = i > 0 && cs[i - 1] == '!';
    let value = String::from_str(l.substring_char(v0, v1));
    make_rule(f, negated, value)
}

impl ExcludeKind {
    /// The rule stated by a line that is already free of comments, trimmed and lowercase.
    pub fn from_normalized(l: &str) -> (r: ExcludeKind)
        ensures
            r.rule() == rule_of_normalized(l@),
    {
        let cs = chars_of(l);
        if cs.len() == 0 {
            return ExcludeKind::Ignore;
        }
        match find_keyword_index(&cs, Field::Domain) {
            Some(i) => {
                return rule_at(l, &cs, Field::Domain, i);
            },
            None => {},
        }
        match find_keyword_index(&cs, Field::Country) {
            Some(i) => {
                return rule_at(l, &cs, Field::Country, i);
            },
            None => {},
        }
        match find_keyword_index(&cs, Field::CountryCode) {
            Some(i) => {
                return rule_at(l, &cs, Field::CountryCode, i);
            },
            None => {},
        }
        if cs[0] == '!' {
            let value = String::from_str(l.substring_char(1, cs.len()));
            assert(value@ =~= l@.drop_first());
            ExcludeKind::NegateDomain(value)
        } else {
            ExcludeKind::Domain(String::from_str(l))
        }
    }

    /// The rule stated by one line of rule text; `Ignore` for a blank or comment-only line.
    pub fn parse(line: &str) -> (r: ExcludeKind)
        ensures
            r.rule() == rule_of_line(line@),
    {
        let cs = chars_of(line);
        if cs.len() == 0 {
            return ExcludeKind::Ignore;
        }
        let (a1, b1) = trim_bounds(&cs);
        let t = slice_chars(&cs, a1, b1);
        let k = comment_end(&t);
        let c = slice_chars(&t, 0, k);
        assert(c@ == strip_comment(trim(line@)));
        let (a2, b2) = trim_bounds(&c);
        assert(cs@.subrange(a1 + a2, a1 + b2) =~= c@.subrange(a2 as int, b2 as int));
        let normalized = line.substring_char(a1 + a2, a1 + b2);
        let lowered = lowercase(normalized);
        ExcludeKind::from_normalized(lowered.as_str())
    }

    /// Reads one line of rule text, as `parse` does; reading a rule never fails.
    pub fn try_from(line: &str) -> (r: Result<ExcludeKind, Error>)
        ensures
            r is Ok,
            r->Ok_0.rule() == rule_of_line(line@),
    {
        Ok(ExcludeKind::parse(line))
    }
}

/// Whether `rule` is about one of the three keys and equals it.
pub open spec fn key_matches(
    rule: RuleView,
    domain: Option<Seq<char>>,
    country: Seq<char>,
    code: Seq<char>,
) -> bool {
    match rule.0 {
        Field::Domain => domain == Some(rule.2),
        Field::Country => country == rule.2,
        Field::CountryCode => code == rule.2,
    }
}

/// The verdict of a rule sequence on a mirror's lowercase keys: the last rule that matches
/// decides, excluding unless it is negated; with no matching rule the mirror is kept.
pub open spec fn excluded_by(
    rules: Seq<Option<RuleView>>,
    domain: Option<Seq<char>>,
    country: Seq<char>,
    code: Seq<char>,
) -> bool
    decreases rules.len(),
{
    if rules.len() == 0 {
        false
    } else {
        match rules.last() {
            Some(r) => if key_matches(r, domain, country, code) {
                !r.1
            } else {
                excluded_by(rules.drop_last(), domain, country, code)
            },
            None => excluded_by(rules.drop_last(), domain, country, code),
        }
    }
}

/// The name of a URL's host, where the URL parses and its host is a domain.
pub uninterp spec fn domain_of(url: Seq<char>) -> Option<Seq<char>>;

/// The domain key of a mirror URL: its lowercase host name.
pub open spec fn domain_key(url: Seq<char>) -> Option<Seq<char>> {
    match domain_of(url) {
        Some(d) => Some(lower_of(d)),
        None => None,
    }
}

/// Relies on `url::Url::parse` followed by `Url::domain`: the host name of `url` when it
/// parses and its host is a domain rather than an IP address.
#[verifier::external_body]
fn url_domain(url: &str) -> (r: Option<String>)
    ensures
        opt_view(r) == domain_of(url@),
{
    match url::Url::parse(url) {
        Ok(u) => match u.domain() {
            Some(d) => Some(d.to_string()),
            None => None,
        },
        Err(_) => None,
    }
}

/// The piece of `s` between line feeds; a string without one is a single piece.
pub open spec fn pieces(s: Seq<char>) -> Seq<Seq<char>>
    decreases s.len(),
{
    if s.len() == 0 {
        seq![Seq::empty()]
    } else {
        let p = pieces(s.drop_last());
        if s.last() == '\n' {
            p.push(Seq::empty())
        } else {
            p.update(p.len() - 1, p.last().push(s.last()))
        }
    }
}

/// The lines of `s`: its pieces, less the empty one after a final line feed. A carriage
/// return before a line feed stays in its line, where it is trimmed as white space.
pub open spec fn lines_of(s: Seq<char>) -> Seq<Seq<char>> {
    let p = pieces(s);
    if p.last().len() == 0 {
        p.drop_last()
    } else {
        p
    }
}

/// The rules that a sequence of lines states, in order, blank and comment lines left out.
pub open spec fn rules_of_lines(lines: Seq<Seq<char>>) -> Seq<Option<RuleView>>
    decreases lines.len(),
{
    if lines.len() == 0 {
        Seq::empty()
    } else {
        let r = rules_of_lines(lines.drop_last());
        match rule_of_line(lines.last()) {
            Some(v) => r.push(Some(v)),
            None => r,
        }
    }
}

/// An ordered set of exclusion rules.
#[derive(Debug, PartialEq)]
pub struct ExcludedMirrors(pub Vec<ExcludeKind>);

impl View for ExcludedMirrors {
    type V = Seq<Option<RuleView>>;

    open spec fn view(&self) -> Seq<Option<RuleView>> {
        self.0@.map_values(|k: ExcludeKind| k.rule())
    }
}

impl ExcludedMirrors {
    pub fn new() -> (r: Self)
        ensures
            r@ == Seq::<Option<RuleView>>::empty(),
    {
        let r = ExcludedMirrors(Vec::new());
        assert(r@ =~= Seq::<Option<RuleView>>::empty());
        r
    }

    /// Appends a rule; `Ignore` is dropped.
    pub fn add(&mut self, exclude: ExcludeKind)
        ensures
            final(self)@ == if exclude.rule() is None {
                old(self)@
            } else {
                old(self)@.push(exclude.rule())
            },
    {
        match exclude {
            ExcludeKind::Ignore => {},
            _ => {
                let ghost k = exclude;
                self.0.push(exclude);
                assert(self@ =~= old(self)@.push(k.rule()));
            },
        }
    }

    /// Appends the rules of a rule text, one line at a time, in order.
    pub fn add_from_text(&mut self, text: &str)
        ensures
            final(self)@ == old(self)@ + rules_of_lines(lines_of(text@)),
    {
        let cs = chars_of(text);
        let n = cs.len();
        let ghost done: Seq<Seq<char>> = Seq::empty();
        let mut start: usize = 0;
        let mut i: usize = 0;
        assert(text@.take(0) =~= Seq::<char>::empty());
        assert(old(self)@ + rules_of_lines(done) =~= old(self)@);
        while i < n
            invariant
                n == cs@.len(),
                cs@ == text@,
                start <= i <= n,
                pieces(text@.take(i as int)) == done.push(text@.subrange(start as int, i as int)),
                self@ == old(self)@ + rules_of_lines(done),
            decreases n - i,
        {
            assert(text@.take(i + 1).drop_last() =~= text@.take(i as int));
            if cs[i] == '\n' {
                let line = text.substring_char(start, i);
                let rule = ExcludeKind::parse(line);
                self.add(rule);
                proof {
                    let piece = text@.subrange(start as int, i as int);
                    assert(done.push(piece).drop_last() =~= done);
                    assert(rules_of_lines(done.push(piece)) == if rule_of_line(piece) is Some {
                        rules_of_lines(done).push(rule_of_line(piece))
                    } else {
                        rules_of_lines(done)
                    });
                    done = done.push(piece);
                    assert(text@.subrange(i + 1, i + 1) =~= Seq::<char>::empty());
                }
                start = i + 1;
            } else {
                proof {
                    let p = done.push(text@.subrange(start as int, i as int));
                    assert(p.last().push(text@[i as int]) =~= text@.subrange(start as int, i + 1));
                    assert(p.update(p.len() - 1, p.last().push(text@[i as int])) =~= done.push(
                        text@.subrange(start as int, i + 1),
                    ));
                }
            }
            i = i + 1;
        }
        assert(text@.take(n as int) =~= text@);
        if start < n {
            let line = text.substring_char(start, n);
            let rule = ExcludeKind::parse(line);
            self.add(rule);
            proof {
                let piece = text@.subrange(start as int, n as int);
                assert(done.push(piece).drop_last() =~= done);
                assert(lines_of(text@) == done.push(piece));
            }
        } else {
            assert(done.push(text@.subrange(start as int, n as int)).drop_last() =~= done);
        }
    }

    /// The number of rules held.
    pub fn len(&self) -> (r: usize)
        ensures
            r == self@.len(),
    {
        self.0.len()
    }

    /// The verdict of the rules on a mirror's keys, already in lowercase.
    pub fn is_excluded_by_keys(&self, domain: &Option<String>, country: &String, code: &String) -> (r:
        bool)
        ensures
            r == excluded_by(self@, opt_view(*domain), country@, code@),
    {
        let ghost dk = opt_view(*domain);
        let mut i: usize = self.0.len();
        assert(self@.take(i as int) =~= self@);
        while i > 0
            invariant
                i <= self@.len(),
                self@.len() == self.0@.len(),
                dk == opt_view(*domain),
                excluded_by(self@.take(i as int), dk, country@, code@) == excluded_by(
                    self@,
                    dk,
                    country@,
                    code@,
                ),
            decreases i,
        {
            let ghost t = self@.take(i as int);
            assert(t.drop_last() =~= self@.take(i - 1));
            assert(t.last() == self.0@[i - 1].rule());
            let found: Option<(Field, bool, &String)> = match &self.0[i - 1] {
                ExcludeKind::Ignore => None,
                ExcludeKind::Domain(v) => Some((Field::Domain, false, v)),
                ExcludeKind::NegateDomain(v) => Some((Field::Domain, true, v)),
                ExcludeKind::Country(v) => Some((Field::Country, false, v)),
                ExcludeKind::NegateCountry(v) => Some((Field::Country, true, v)),
                ExcludeKind::CountryCode(v) => Some((Field::CountryCode, false, v)),
                ExcludeKind::NegateCountryCode(v) => Some((Field::CountryCode, true, v)),
            };
            if let Some((field, negated, value)) = found {
                assert(t.last() == Some((field, negated, value@)));
                let matched = match field {
                    Field::Domain => match domain {
                        Some(d) => {
                            value.eq(d)
                        },
                        None => false,
                    },
                    Field::Country => value.eq(country),
                    Field::CountryCode => value.eq(code),
                };
                assert(matched == key_matches((field, negated, value@), dk, country@, code@));
                if matched {
                    return !negated;
                }
            }
            i = i - 1;
        }
        assert(self@.take(0) =~= Seq::<Option<RuleView>>::empty());
        false
    }

    /// Whether the rules exclude `mirror`, judged on its lowercase domain, country and
    /// country code. A URL without a domain host matches no domain rule.
    pub fn is_exclude(&self, mirror: &crate::mirror::Mirror) -> (r: bool)
        ensures
            r == excluded_by(
                self@,
                domain_key(mirror.url@),
                lower_of(mirror.country@),
                lower_of(mirror.country_code@),
            ),
    {
        let domain = match url_domain(mirror.url.as_str()) {
            Some(d) => Some(lowercase(d.as_str())),
            None => None,
        };
        let country = lowercase(mirror.country.as_str());
        let code = lowercase(mirror.country_code.as_str());
        self.is_excluded_by_keys(&domain, &country, &code)
    }
}

/// A rule that matches a mirror's keys and comes after all others decides: the mirror is
/// excluded exactly when that rule is not negated.
pub proof fn lemma_last_match_wins(
    rules: Seq<Option<RuleView>>,
    rule: RuleView,
    domain: Option<Seq<char>>,
    country: Seq<char>,
    code: Seq<char>,
)
    requires
        key_matches(rule, domain, country, code),
    ensures
        excluded_by(rules.push(Some(rule)), domain, country, code) == !rule.1,
{
}

/// A rule that does not match a mirror's keys leaves the verdict of the rules before it.
pub proof fn lemma_unmatched_rule_keeps_verdict(
    rules: Seq<Option<RuleView>>,
    rule: RuleView,
    domain: Option<Seq<char>>,
    country: Seq<char>,
    code: Seq<char>,
)
    requires
        !key_matches(rule, domain, country, code),
    ensures
        excluded_by(rules.push(Some(rule)), domain, country, code) == excluded_by(
            rules,
            domain,
            country,
            code,
        ),
{
    assert(rules.push(Some(rule)).drop_last() =~= rules);
}

/// A domain rule followed by its negation keeps a mirror of that domain; in the other
/// order the mirror is excluded.
pub proof fn lemma_domain_rule_order(a: Seq<char>, country: Seq<char>, code: Seq<char>)
    ensures
        !excluded_by(
            seq![Some((Field::Domain, false, a)), Some((Field::Domain, true, a))],
            Some(a),
            country,
            code,
        ),
        excluded_by(
            seq![Some((Field::Domain, true, a)), Some((Field::Domain, false, a))],
            Some(a),
            country,
            code,
        ),
{
    lemma_last_match_wins(seq![Some((Field::Domain, false, a))], (Field::Domain, true, a), Some(a), country, code);
    lemma_last_match_wins(seq![Some((Field::Domain, true, a))], (Field::Domain, false, a), Some(a), country, code);
    assert(seq![Some((Field::Domain, false, a))].push(Some((Field::Domain, true, a))) =~= seq![Some((Field::Domain, false, a)), Some((Field::Domain, true, a))]);
    assert(seq![Some((Field::Domain, true, a))].push(Some((Field::Domain, false, a))) =~= seq![Some((Field::Domain, true, a)), Some((Field::Domain, false, a))]);
}

} // verus!
