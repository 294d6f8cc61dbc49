//! Munchers: declarative rule bundles, one per file family. A muncher is
//! loaded from its pattern sources, compiled, and fingerprinted; it is
//! immutable afterwards.

use vstd::prelude::*;
use vstd::string::StrSliceExecFns;

verus! {

#[verifier::external_type_specification]
#[verifier::external_body]
pub struct ExRegex(regex::Regex);

/// Whether the regex crate accepts the pattern.
pub uninterp spec fn regex_ok(pattern: Seq<char>) -> bool;

/// Whether the pattern matches the line.
pub uninterp spec fn regex_match(pattern: Seq<char>, line: Seq<char>) -> bool;

/// The token the pattern yields on a line it matches: its first capture
/// group when one took part, the whole match otherwise.
pub uninterp spec fn regex_capture(pattern: Seq<char>, line: Seq<char>) -> Seq<char>;

/// One compiled rule. The regex inside was compiled from `source` and is
/// reachable only through this module, so the pair never comes apart.
pub struct CompiledRule {
    source: String,
    regex: regex::Regex,
}

impl CompiledRule {
    /// The pattern this rule was compiled from.
    pub closed spec fn src(&self) -> Seq<char> {
        self.source@
    }
}

/// Compile one pattern.
///
/// Relies on regex's Regex::new: whether a pattern compiles depends on the
/// pattern alone, and the regex handed back is the one compiled from it.
#[verifier::external_body]
pub fn compile_rule(pattern: &String) -> (r: Option<CompiledRule>)
    ensures
        r is Some == regex_ok(pattern@),
        r matches Some(rule) ==> rule.src() == pattern@,
{
    match regex::Regex::new(pattern.as_str()) {
        Ok(regex) => Some(CompiledRule { source: pattern.clone(), regex }),
        Err(_) => None,
    }
}

/// Whether the rule matches the line.
///
/// Relies on regex's Regex::is_match: the answer depends on the rule's
/// pattern and the line alone.
#[verifier::external_body]
pub fn rule_matches(rule: &CompiledRule, line: &String) -> (r: bool)
    ensures
        r == regex_match(rule.src(), line@),
{
    rule.regex.is_match(line.as_str())
}

/// The token the rule harvests from the line: the first capture group when
/// one took part, else the whole match; nothing on a line it does not
/// match.
///
/// Relies on regex's Regex::captures and Captures::get: captures answers
/// exactly on the lines is_match accepts, group 0 is the whole match, and
/// the result depends on the rule's pattern and the line alone.
#[verifier::external_body]
pub fn rule_capture(rule: &CompiledRule, line: &String) -> (r: Option<String>)
    ensures
        r is Some == regex_match(rule.src(), line@),
        r matches Some(t) ==> t@ == regex_capture(rule.src(), line@),
{
    match rule.regex.captures(line.as_str()) {
        Some(caps) => match caps.get(1) {
            Some(m) => Some(m.as_str().to_owned()),
            None => Some(caps.get(0).unwrap().as_str().to_owned()),
        },
        None => None,
    }
}

/// The pattern sources of a list of compiled rules.
pub open spec fn rule_sources(rules: Seq<CompiledRule>) -> Seq<Seq<char>> {
    rules.map_values(|r: CompiledRule| r.src())
}

/// Whether at least one pattern of the list matches the line.
pub open spec fn list_match(patterns: Seq<Seq<char>>, line: Seq<char>) -> bool {
    exists|i: int| 0 <= i < patterns.len() && regex_match(#[trigger] patterns[i], line)
}

/// Whether at least one rule of the list matches the line.
pub fn match_line(rules: &Vec<CompiledRule>, line: &String) -> (r: bool)
    ensures
        r == list_match(rule_sources(rules@), line@),
{
    let n = rules.len();
    let mut i: usize = 0;
    while i < n
        invariant
            n == rules@.len(),
            i <= n,
            forall|k: int| 0 <= k < i as int ==> !regex_match(
                #[trigger] rule_sources(rules@)[k],
                line@,
            ),
        decreases n - i,
    {
        if rule_matches(&rules[i], line) {
            proof {
                assert(rule_sources(rules@)[i as int] == rules@[i as int].src());
            }
            return true;
        }
        proof {
            assert(rule_sources(rules@)[i as int] == rules@[i as int].src());
        }
        i += 1;
    }
    false
}

/// The patterns of an optional source list.
pub open spec fn opt_list_view(o: Option<Vec<String>>) -> Seq<Seq<char>> {
    match o {
        None => Seq::empty(),
        Some(v) => v@.map_values(|s: String| s@),
    }
}

/// The patterns of the list that the regex crate refuses, in order.
pub open spec fn failing(l: Seq<Seq<char>>) -> Seq<Seq<char>>
    decreases l.len(),
{
    if l.len() == 0 {
        Seq::empty()
    } else {
        let p = failing(l.drop_last());
        if regex_ok(l.last()) {
            p
        } else {
            p.push(l.last())
        }
    }
}

/// The sources and their compiled rules agree, and every pattern compiles.
pub open spec fn compiled_ok(src: Option<Vec<String>>, rules: Seq<CompiledRule>) -> bool {
    &&& rule_sources(rules) == opt_list_view(src)
    &&& forall|i: int| 0 <= i < rules.len() ==> regex_ok(#[trigger] rule_sources(rules)[i])
}

/// The pattern that matches a blank line; every muncher carries it.
pub open spec fn blank_pattern() -> Seq<char> {
    seq!['^', '\\', 's', '*', '$']
}

pub const FNV_OFFSET: u64 = 0xcbf29ce484222325;

pub const FNV_PRIME: u64 = 0x100000001b3;

pub const MARK_STRING_END: u64 = 0x200000;

pub const MARK_LIST_END: u64 = 0x200001;

pub const MARK_NONE: u64 = 0x200002;

/// One step of the 64-bit fingerprint: fold a value in.
pub open spec fn fnv_mix(h: u64, v: u64) -> u64 {
    vstd::wrapping::u64_specs::wrapping_mul(h ^ v, FNV_PRIME)
}

/// Fold every character of a string in.
pub open spec fn mix_chars(h: u64, s: Seq<char>) -> u64
    decreases s.len(),
{
    if s.len() == 0 {
        h
    } else {
        fnv_mix(mix_chars(h, s.drop_last()), s.last() as u64)
    }
}

/// Fold a whole string in, closed by its end mark.
pub open spec fn mix_string(h: u64, s: Seq<char>) -> u64 {
    fnv_mix(mix_chars(h, s), MARK_STRING_END)
}

/// Fold every string of a list in.
pub open spec fn mix_items(h: u64, l: Seq<Seq<char>>) -> u64
    decreases l.len(),
{
    if l.len() == 0 {
        h
    } else {
        mix_string(mix_items(h, l.drop_last()), l.last())
    }
}

/// Fold an optional pattern list in: absence leaves its own mark, so that
/// an absent list and an empty one fingerprint apart.
pub open spec fn mix_opt_list(h: u64, o: Option<Seq<Seq<char>>>) -> u64 {
    match o {
        None => fnv_mix(h, MARK_NONE),
        Some(l) => fnv_mix(mix_items(h, l), MARK_LIST_END),
    }
}

/// The fingerprint of a rule bundle: a stable 64-bit hash over the
/// muncher's name, its language, and its pattern sources, in that order.
pub open spec fn muncher_fingerprint(
    name: Seq<char>,
    language: Seq<char>,
    keywords: Option<Seq<Seq<char>>>,
    bracket_only: Option<Seq<Seq<char>>>,
    line_comments: Option<Seq<Seq<char>>>,
    inline_comments: Option<Seq<Seq<char>>>,
    doc_comments: Option<Seq<Seq<char>>>,
    block_comments_start: Option<Seq<Seq<char>>>,
    block_comments_end: Option<Seq<Seq<char>>>,
    refs: Option<Seq<Seq<char>>>,
    packages: Option<Seq<Seq<char>>>,
) -> u64 {
    let h = mix_string(mix_string(FNV_OFFSET, name), language);
    let h = mix_opt_list(h, keywords);
    let h = mix_opt_list(h, bracket_only);
    let h = mix_opt_list(h, line_comments);
    let h = mix_opt_list(h, inline_comments);
    let h = mix_opt_list(h, doc_comments);
    let h = mix_opt_list(h, block_comments_start);
    let h = mix_opt_list(h, block_comments_end);
    let h = mix_opt_list(h, refs);
    mix_opt_list(h, packages)
}

/// The source view of an optional list, for the fingerprint.
pub open spec fn opt_items_view(o: Option<Vec<String>>) -> Option<Seq<Seq<char>>> {
    match o {
        None => None,
        Some(v) => Some(v@.map_values(|s: String| s@)),
    }
}

fn fnv_mix_exec(h: u64, v: u64) -> (r: u64)
    ensures
        r == fnv_mix(h, v),
{
    (h ^ v).wrapping_mul(FNV_PRIME)
}

fn mix_string_exec(h: u64, s: &String) -> (r: u64)
    ensures
        r == mix_string(h, s@),
{
    let text = s.as_str();
    let n = text.unicode_len();
    let mut acc = h;
    let mut i: usize = 0;
    proof {
        assert(s@.take(0) =~= Seq::<char>::empty());
    }
    while i < n
        invariant
            n == s@.len(),
            text@ == s@,
            i <= n,
            acc == mix_chars(h, s@.take(i as int)),
        decreases n - i,
    {
        let c = text.get_char(i);
        proof {
            assert(s@.take(i + 1).drop_last() =~= s@.take(i as int));
            assert(s@.take(i + 1).last() == s@[i as int]);
        }
        acc = fnv_mix_exec(acc, c as u64);
        i += 1;
    }
    proof {
        assert(s@.take(n as int) =~= s@);
    }
    fnv_mix_exec(acc, MARK_STRING_END)
}

fn mix_opt_list_exec(h: u64, o: &Option<Vec<String>>) -> (r: u64)
    ensures
        r == mix_opt_list(h, opt_items_view(*o)),
{
    match o {
        None => fnv_mix_exec(h, MARK_NONE),
        Some(v) => {
            let ghost items = v@.map_values(|s: String| s@);
            let n = v.len();
            let mut acc = h;
            let mut i: usize = 0;
            proof {
                assert(items.take(0) =~= Seq::<Seq<char>>::empty());
            }
            while i < n
                invariant
                    n == v@.len(),
                    items == v@.map_values(|s: String| s@),
                    i <= n,
                    acc == mix_items(h, items.take(i as int)),
                decreases n - i,
            {
                proof {
                    assert(items.take(i + 1).drop_last() =~= items.take(i as int));
                    assert(items.take(i + 1).last() == items[i as int]);
                    assert(items[i as int] == v@[i as int]@);
                }
                acc = mix_string_exec(acc, &v[i]);
                i += 1;
            }
            proof {
                assert(items.take(n as int) =~= items);
            }
            fnv_mix_exec(acc, MARK_LIST_END)
        },
    }
}

/// The pattern sources a muncher is loaded from.
pub struct MuncherSources {
    pub language: String,
    pub keywords: Option<Vec<String>>,
    pub bracket_only: Option<Vec<String>>,
    pub line_comments: Option<Vec<String>>,
    pub inline_comments: Option<Vec<String>>,
    pub doc_comments: Option<Vec<String>>,
    pub block_comments_start: Option<Vec<String>>,
    pub block_comments_end: Option<Vec<String>>,
    pub refs: Option<Vec<String>>,
    pub packages: Option<Vec<String>>,
}

/// A loaded muncher: the pattern sources, their compiled rules, and the
/// fingerprint of the sources.
pub struct Muncher {
    pub muncher_name: String,
    pub language: String,
    pub keywords: Option<Vec<String>>,
    pub bracket_only: Option<Vec<String>>,
    pub line_comments: Option<Vec<String>>,
    pub inline_comments: Option<Vec<String>>,
    pub doc_comments: Option<Vec<String>>,
    pub block_comments_start: Option<Vec<String>>,
    pub block_comments_end: Option<Vec<String>>,
    pub refs: Option<Vec<String>>,
    pub packages: Option<Vec<String>>,
    pub bracket_only_regex: Vec<CompiledRule>,
    pub line_comments_regex: Vec<CompiledRule>,
    pub inline_comments_regex: Vec<CompiledRule>,
    pub doc_comments_regex: Vec<CompiledRule>,
    pub block_comments_start_regex: Vec<CompiledRule>,
    pub block_comments_end_regex: Vec<CompiledRule>,
    pub refs_regex: Vec<CompiledRule>,
    pub packages_regex: Vec<CompiledRule>,
    pub keywords_regex: Vec<CompiledRule>,
    pub blank_line_regex: Vec<CompiledRule>,
    pub brand_new: bool,
    pub muncher_hash: u64,
}

impl Muncher {
    /// Every compiled list carries exactly its sources, every pattern
    /// compiles, the blank rule stands, and the fingerprint is the hash of
    /// the sources.
    pub open spec fn wf(&self) -> bool {
        &&& compiled_ok(self.keywords, self.keywords_regex@)
        &&& compiled_ok(self.bracket_only, self.bracket_only_regex@)
        &&& compiled_ok(self.line_comments, self.line_comments_regex@)
        &&& compiled_ok(self.inline_comments, self.inline_comments_regex@)
        &&& compiled_ok(self.doc_comments, self.doc_comments_regex@)
        &&& compiled_ok(self.block_comments_start, self.block_comments_start_regex@)
        &&& compiled_ok(self.block_comments_end, self.block_comments_end_regex@)
        &&& compiled_ok(self.refs, self.refs_regex@)
        &&& compiled_ok(self.packages, self.packages_regex@)
        &&& rule_sources(self.blank_line_regex@) == seq![blank_pattern()]
        &&& self.muncher_hash == muncher_fingerprint(
            self.muncher_name@,
            self.language@,
            opt_items_view(self.keywords),
            opt_items_view(self.bracket_only),
            opt_items_view(self.line_comments),
            opt_items_view(self.inline_comments),
            opt_items_view(self.doc_comments),
            opt_items_view(self.block_comments_start),
            opt_items_view(self.block_comments_end),
            opt_items_view(self.refs),
            opt_items_view(self.packages),
        )
    }

    /// Adds the compiled form of `regex` to the list, opening the list on
    /// its first rule; nothing changes when the pattern does not compile,
    /// and the answer says whether it did.
    pub fn add_regex_to_list(list: &mut Option<Vec<CompiledRule>>, regex: &String) -> (r: bool)
        ensures
            r == regex_ok(regex@),
            r ==> ((*final(list)) matches Some(v) && v@ == opt_rules_view(*old(list)).push(
                v@[v@.len() - 1],
            ) && v@.len() == opt_rules_view(*old(list)).len() + 1 && v@.last().src() == regex@),
            !r ==> *final(list) == *old(list),
    {
        let compiled = match compile_rule(regex) {
            Some(c) => c,
            None => {
                return false;
            },
        };
        if list.is_none() {
            *list = Some(Vec::new());
        }
        match list {
            Some(v) => {
                v.push(compiled);
                proof {
                    assert(v@ =~= opt_rules_view(*old(list)).push(v@[v@.len() - 1]));
                }
            },
            None => {
                proof {
                    assert(false);
                }
            },
        }
        true
    }

    /// Load a muncher from its pattern sources: compile every pattern,
    /// collecting those that the regex crate refuses, and fingerprint the
    /// sources. Loading fails atomically, returning all the refused
    /// patterns, when any one of them fails.
    pub fn new(sources: MuncherSources, muncher_name: &String) -> (r: Result<Muncher, Vec<String>>)
        ensures
            (r is Ok) == ({
                &&& failing(opt_list_view(sources.bracket_only)).len() == 0
                &&& failing(opt_list_view(sources.line_comments)).len() == 0
                &&& failing(opt_list_view(sources.inline_comments)).len() == 0
                &&& failing(opt_list_view(sources.doc_comments)).len() == 0
                &&& failing(opt_list_view(sources.block_comments_start)).len() == 0
                &&& failing(opt_list_view(sources.block_comments_end)).len() == 0
                &&& failing(opt_list_view(sources.refs)).len() == 0
                &&& failing(opt_list_view(sources.packages)).len() == 0
                &&& failing(opt_list_view(sources.keywords)).len() == 0
                &&& regex_ok(blank_pattern())
            }),
            r matches Ok(m) ==> {
                &&& m.wf()
                &&& m.muncher_name@ == muncher_name@
                &&& m.language == sources.language
                &&& m.keywords == sources.keywords
                &&& m.bracket_only == sources.bracket_only
                &&& m.line_comments == sources.line_comments
                &&& m.inline_comments == sources.inline_comments
                &&& m.doc_comments == sources.doc_comments
                &&& m.block_comments_start == sources.block_comments_start
                &&& m.block_comments_end == sources.block_comments_end
                &&& m.refs == sources.refs
                &&& m.packages == sources.packages
                &&& m.brand_new
            },
            r matches Err(errs) ==> errs@.map_values(|s: String| s@) == failing(
                opt_list_view(sources.bracket_only),
            ) + failing(opt_list_view(sources.line_comments)) + failing(
                opt_list_view(sources.inline_comments),
            ) + failing(opt_list_view(sources.doc_comments)) + failing(
                opt_list_view(sources.block_comments_start),
            ) + failing(opt_list_view(sources.block_comments_end)) + failing(
                opt_list_view(sources.refs),
            ) + failing(opt_list_view(sources.packages)) + failing(
                opt_list_view(sources.keywords),
            ) + (if regex_ok(blank_pattern()) {
                Seq::<Seq<char>>::empty()
            } else {
                seq![blank_pattern()]
            }),
    {
        let mut failures: Vec<String> = Vec::new();
        let bracket_only_regex = compile_list(&sources.bracket_only, &mut failures);
        let line_comments_regex = compile_list(&sources.line_comments, &mut failures);
        let inline_comments_regex = compile_list(&sources.inline_comments, &mut failures);
        let doc_comments_regex = compile_list(&sources.doc_comments, &mut failures);
        let block_comments_start_regex = compile_list(&sources.block_comments_start, &mut failures);
        let block_comments_end_regex = compile_list(&sources.block_comments_end, &mut failures);
        let refs_regex = compile_list(&sources.refs, &mut failures);
        let packages_regex = compile_list(&sources.packages, &mut failures);
        let keywords_regex = compile_list(&sources.keywords, &mut failures);

        let blank_source: String = "^\\s*$".to_owned();
        proof {
            reveal_strlit("^\\s*$");
            assert(blank_source@ =~= blank_pattern());
        }
        let mut blank_line_regex: Vec<CompiledRule> = Vec::new();
        match compile_rule(&blank_source) {
            Some(rule) => {
                blank_line_regex.push(rule);
                proof {
                    assert(rule_sources(blank_line_regex@) =~= seq![blank_pattern()]);
                }
            },
            None => {
                failures.push(blank_source);
            },
        }

        if failures.len() > 0 {
            proof {
                lemma_map_view_concat_empty(failures@);
            }
            return Err(failures);
        }
        proof {
            assert(failures@.map_values(|s: String| s@).len() == failures@.len());
        }

        let mut h = mix_string_exec(FNV_OFFSET, muncher_name);
        h = mix_string_exec(h, &sources.language);
        h = mix_opt_list_exec(h, &sources.keywords);
        h = mix_opt_list_exec(h, &sources.bracket_only);
        h = mix_opt_list_exec(h, &sources.line_comments);
        h = mix_opt_list_exec(h, &sources.inline_comments);
        h = mix_opt_list_exec(h, &sources.doc_comments);
        h = mix_opt_list_exec(h, &sources.block_comments_start);
        h = mix_opt_list_exec(h, &sources.block_comments_end);
        h = mix_opt_list_exec(h, &sources.refs);
        let muncher_hash = mix_opt_list_exec(h, &sources.packages);

        Ok(
            Muncher {
                muncher_name: muncher_name.clone(),
                language: sources.language,
                keywords: sources.keywords,
                bracket_only: sources.bracket_only,
                line_comments: sources.line_comments,
                inline_comments: sources.inline_comments,
                doc_comments: sources.doc_comments,
                block_comments_start: sources.block_comments_start,
                block_comments_end: sources.block_comments_end,
                refs: sources.refs,
                packages: sources.packages,
                bracket_only_regex,
                line_comments_regex,
                inline_comments_regex,
                doc_comments_regex,
                block_comments_start_regex,
                block_comments_end_regex,
                refs_regex,
                packages_regex,
                keywords_regex,
                blank_line_regex,
                brand_new: true,
                muncher_hash,
            },
        )
    }
}

/// The rules of an optional list; absence holds none.
pub open spec fn opt_rules_view(o: Option<Vec<CompiledRule>>) -> Seq<CompiledRule> {
    match o {
        None => Seq::empty(),
        Some(v) => v@,
    }
}

proof fn lemma_map_view_concat_empty(v: Seq<String>)
    ensures
        v.len() > 0 ==> v.map_values(|s: String| s@).len() > 0,
{
}

/// Compile one source list, collecting the refused patterns.
fn compile_list(src: &Option<Vec<String>>, failures: &mut Vec<String>) -> (r: Vec<CompiledRule>)
    ensures
        final(failures)@.map_values(|s: String| s@) == old(failures)@.map_values(|s: String| s@)
            + failing(opt_list_view(*src)),
        final(failures)@.len() == old(failures)@.len() + failing(opt_list_view(*src)).len(),
        failing(opt_list_view(*src)).len() == 0 ==> compiled_ok(*src, r@),
{
    let ghost patterns = opt_list_view(*src);
    let mut list: Option<Vec<CompiledRule>> = None;
    match src {
        None => {
            proof {
                assert(final(failures)@.map_values(|s: String| s@) =~= old(failures)@.map_values(
                    |s: String| s@,
                ) + failing(patterns));
                assert(rule_sources(Seq::<CompiledRule>::empty()) =~= opt_list_view(*src));
            }
            Vec::new()
        },
        Some(v) => {
            let n = v.len();
            let mut i: usize = 0;
            proof {
                assert(patterns.take(0) =~= Seq::<Seq<char>>::empty());
                assert(failures@.map_values(|s: String| s@) =~= old(failures)@.map_values(
                    |s: String| s@,
                ) + failing(patterns.take(0)));
            }
            while i < n
                invariant
                    n == v@.len(),
                    patterns == v@.map_values(|s: String| s@),
                    i <= n,
                    failures@.map_values(|s: String| s@) == old(failures)@.map_values(
                        |s: String| s@,
                    ) + failing(patterns.take(i as int)),
                    rule_sources(opt_rules_view(list)) == kept(patterns.take(i as int)),
                    forall|k: int| 0 <= k < opt_rules_view(list).len() ==> regex_ok(
                        #[trigger] rule_sources(opt_rules_view(list))[k],
                    ),
                decreases n - i,
            {
                proof {
                    assert(patterns.take(i + 1).drop_last() =~= patterns.take(i as int));
                    assert(patterns.take(i + 1).last() == patterns[i as int]);
                    assert(patterns[i as int] == v@[i as int]@);
                }
                let ghost rules_before = opt_rules_view(list);
                let ghost failures_before = failures@;
                if !Muncher::add_regex_to_list(&mut list, &v[i]) {
                    failures.push(v[i].clone());
                    proof {
                        assert(failures@.map_values(|s: String| s@) =~= failures_before.map_values(
                            |s: String| s@,
                        ).push(v@[i as int]@));
                        assert(failures@.map_values(|s: String| s@) =~= old(
                            failures,
                        )@.map_values(|s: String| s@) + failing(patterns.take(i + 1)));
                    }
                } else {
                    proof {
                        assert(rule_sources(opt_rules_view(list)) =~= rule_sources(
                            rules_before,
                        ).push(patterns[i as int]));
                        assert(rule_sources(opt_rules_view(list)) =~= kept(patterns.take(i + 1)));
                    }
                }
                i += 1;
            }
            proof {
                assert(patterns.take(n as int) =~= patterns);
                if failing(patterns).len() == 0 {
                    lemma_kept_all(patterns);
                }
            }
            match list {
                Some(l) => l,
                None => {
                    proof {
                        assert(rule_sources(Seq::<CompiledRule>::empty()) =~= Seq::<
                            Seq<char>,
                        >::empty());
                        if failing(patterns).len() == 0 {
                            assert(kept(patterns) =~= Seq::<Seq<char>>::empty() ==> patterns
                                =~= Seq::<Seq<char>>::empty());
                        }
                    }
                    Vec::new()
                },
            }
        },
    }
}

/// The patterns of the list that compile, in order.
pub open spec fn kept(l: Seq<Seq<char>>) -> Seq<Seq<char>>
    decreases l.len(),
{
    if l.len() == 0 {
        Seq::empty()
    } else {
        let p = kept(l.drop_last());
        if regex_ok(l.last()) {
            p.push(l.last())
        } else {
            p
        }
    }
}

proof fn lemma_kept_all(l: Seq<Seq<char>>)
    requires
        failing(l).len() == 0,
    ensures
        kept(l) =~= l,
    decreases l.len(),
{
    if l.len() > 0 {
        lemma_kept_all(l.drop_last());
    }
}

/// Equal names, languages and pattern sources give equal fingerprints: the
/// hash is a function of the sources alone.
pub proof fn lemma_fingerprint_stable(a: Muncher, b: Muncher)
    requires
        a.wf(),
        b.wf(),
        a.muncher_name@ == b.muncher_name@,
        a.language@ == b.language@,
        opt_items_view(a.keywords) == opt_items_view(b.keywords),
        opt_items_view(a.bracket_only) == opt_items_view(b.bracket_only),
        opt_items_view(a.line_comments) == opt_items_view(b.line_comments),
        opt_items_view(a.inline_comments) == opt_items_view(b.inline_comments),
        opt_items_view(a.doc_comments) == opt_items_view(b.doc_comments),
        opt_items_view(a.block_comments_start) == opt_items_view(b.block_comments_start),
        opt_items_view(a.block_comments_end) == opt_items_view(b.block_comments_end),
        opt_items_view(a.refs) == opt_items_view(b.refs),
        opt_items_view(a.packages) == opt_items_view(b.packages),
    ensures
        a.muncher_hash == b.muncher_hash,
{
}

} // verus!
