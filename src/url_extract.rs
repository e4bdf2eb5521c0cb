use vstd::prelude::*;
use regex::Regex;

verus! {

#[verifier::external_type_specification]
#[verifier::external_body]
pub struct ExRegex(Regex);

#[verifier::external_type_specification]
#[verifier::external_body]
pub struct ExRegexError(regex::Error);

/// Whether `regex::Regex::new` accepts the pattern.
pub uninterp spec fn pattern_compiles(pattern: Seq<char>) -> bool;

/// The number of capture slots of a compiled pattern, the whole match included.
pub uninterp spec fn capture_slots(pattern: Seq<char>) -> nat;

/// For each non-overlapping match of the pattern in the text, left to right,
/// the text of its first capture group, or `None` where that group took no part.
pub uninterp spec fn first_groups(pattern: Seq<char>, text: Seq<char>) -> Seq<Option<Seq<char>>>;

/// Why a URL pattern was refused.
#[derive(Debug, Clone, Copy, PartialEq, Eq, Structural)]
pub enum PatternError {
    /// The pattern does not compile.
    Invalid,
    /// The pattern has no capture group to take the URL from.
    NoCaptureGroup,
}

/// The texts of the groups that took part, in order.
pub open spec fn present_groups(gs: Seq<Option<Seq<char>>>) -> Seq<Seq<char>>
    decreases gs.len(),
{
    if gs.len() == 0 {
        Seq::<Seq<char>>::empty()
    } else {
        let rest = present_groups(gs.drop_last());
        match gs.last() {
            Some(u) => rest.push(u),
            None => rest,
        }
    }
}

/// The URLs that `pattern` finds in `text`: the first group of each match.
pub open spec fn urls_in(pattern: Seq<char>, text: Seq<char>) -> Seq<Seq<char>> {
    present_groups(first_groups(pattern, text))
}

/// Where every match has its first group, extraction gives one URL per
/// match, in the order of the matches; no match gives no URL.
pub proof fn one_url_per_match(pattern: Seq<char>, text: Seq<char>)
    requires
        forall|i: int|
            0 <= i < first_groups(pattern, text).len() ==> (#[trigger] first_groups(
                pattern,
                text,
            )[i]) is Some,
    ensures
        urls_in(pattern, text).len() == first_groups(pattern, text).len(),
        forall|i: int|
            0 <= i < urls_in(pattern, text).len() ==> Some(#[trigger] urls_in(pattern, text)[i])
                == first_groups(pattern, text)[i],
{
    lemma_all_present(first_groups(pattern, text));
}

proof fn lemma_all_present(gs: Seq<Option<Seq<char>>>)
    requires
        forall|i: int| 0 <= i < gs.len() ==> (#[trigger] gs[i]) is Some,
    ensures
        present_groups(gs).len() == gs.len(),
        forall|i: int| 0 <= i < gs.len() ==> Some(#[trigger] present_groups(gs)[i]) == gs[i],
    decreases gs.len(),
{
    if gs.len() > 0 {
        let p = gs.drop_last();
        assert forall|i: int| 0 <= i < p.len() implies (#[trigger] p[i]) is Some by {
            assert(p[i] == gs[i]);
        }
        lemma_all_present(p);
        assert(gs[gs.len() - 1] is Some);
        assert forall|i: int| 0 <= i < gs.len() implies Some(#[trigger] present_groups(gs)[i]) == gs[i] by {
            if i < p.len() {
                assert(p[i] == gs[i]);
            }
        }
    }
}

/// A URL pattern compiled once, kept with its source text.
pub struct UrlPattern {
    pattern: String,
    re: Regex,
}

impl View for UrlPattern {
    type V = Seq<char>;

    closed spec fn view(&self) -> Seq<char> {
        self.pattern@
    }
}

/// Relies on regex::Regex::new: whether a pattern compiles depends on the
/// pattern alone.
#[verifier::external_body]
fn compile(pattern: &str) -> (r: Result<Regex, regex::Error>)
    ensures
        r is Ok <==> pattern_compiles(pattern@),
{
    Regex::new(pattern)
}

/// Relies on regex::Regex::captures_len, called on the regex that
/// `UrlPattern::new` compiled from `p@`: the slot count, never zero.
#[verifier::external_body]
fn slots_of(p: &UrlPattern) -> (r: usize)
    ensures
        r as nat == capture_slots(p@),
        r >= 1,
{
    p.re.captures_len()
}

/// Relies on regex::Regex::captures_iter, called on the regex that
/// `UrlPattern::new` compiled from `p@`: the matches left to right, each with
/// the text of its group 1 if that group took part.
#[verifier::external_body]
fn first_group_texts(p: &UrlPattern, text: &str) -> (r: Vec<Option<String>>)
    ensures
        r@.len() == first_groups(p@, text@).len(),
        forall|i: int|
            0 <= i < r@.len() ==> match #[trigger] r@[i] {
                Some(s) => first_groups(p@, text@)[i] == Some(s@),
                None => first_groups(p@, text@)[i] is None,
            },
{
    p.re.captures_iter(text).map(|c| c.get(1).map(|m| m.as_str().to_string())).collect()
}

impl UrlPattern {
    /// Compiles `pattern`; it must compile and have a capture group.
    pub fn new(pattern: &str) -> (r: Result<UrlPattern, PatternError>)
        ensures
            match r {
                Ok(p) => pattern_compiles(pattern@) && capture_slots(pattern@) >= 2 && p@
                    == pattern@,
                Err(e) => if !pattern_compiles(pattern@) {
                    e == PatternError::Invalid
                } else {
                    capture_slots(pattern@) < 2 && e == PatternError::NoCaptureGroup
                },
            },
    {
        match compile(pattern) {
            Err(_) => Err(PatternError::Invalid),
            Ok(re) => {
                let p = UrlPattern { pattern: String::from_str(pattern), re };
                if slots_of(&p) < 2 {
                    Err(PatternError::NoCaptureGroup)
                } else {
                    Ok(p)
                }
            },
        }
    }

    /// The pattern's source text.
    pub fn as_str(&self) -> (r: &str)
        ensures
            r@ == self@,
    {
        self.pattern.as_str()
    }

    /// The URLs found in `text`, left to right: the first group of each match.
    pub fn extract_urls(&self, text: &str) -> (r: Vec<String>)
        ensures
            r@.len() == urls_in(self@, text@).len(),
            forall|i: int| 0 <= i < r@.len() ==> #[trigger] r@[i]@ == urls_in(self@, text@)[i],
    {
        let groups = first_group_texts(self, text);
        proof {
            assert(group_views(groups@) =~= first_groups(self@, text@));
        }
        urls_from_groups(&groups)
    }
}

/// The views of the group texts of the matches.
pub open spec fn group_views(gs: Seq<Option<String>>) -> Seq<Option<Seq<char>>> {
    gs.map_values(
        |g: Option<String>|
            match g {
                Some(s) => Some(s@),
                None => None,
            },
    )
}

/// The group texts that took part, in order: the URLs of a message, given
/// the first group of each match.
pub fn urls_from_groups(groups: &Vec<Option<String>>) -> (r: Vec<String>)
    ensures
        r@.len() == present_groups(group_views(groups@)).len(),
        forall|i: int|
            0 <= i < r@.len() ==> #[trigger] r@[i]@ == present_groups(group_views(groups@))[i],
{
    let ghost gs = group_views(groups@);
    let mut out: Vec<String> = Vec::new();
    let mut i: usize = 0;
    while i < groups.len()
        invariant
            i <= groups@.len(),
            gs == group_views(groups@),
            out@.len() == present_groups(gs.subrange(0, i as int)).len(),
            forall|k: int|
                0 <= k < out@.len() ==> #[trigger] out@[k]@ == present_groups(
                    gs.subrange(0, i as int),
                )[k],
        decreases groups@.len() - i,
    {
        proof {
            assert(gs.subrange(0, i as int + 1).drop_last() =~= gs.subrange(0, i as int));
        }
        match &groups[i] {
            Some(s) => {
                out.push(String::from_str(s.as_str()));
            },
            None => {},
        }
        i += 1;
    }
    proof {
        assert(gs.subrange(0, i as int) =~= gs);
    }
    out
}

} // verus!
