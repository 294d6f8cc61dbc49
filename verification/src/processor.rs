//! The file processor: decode a blob, split it into lines, classify each
//! line under a muncher's rules, and harvest tokens from the code lines.

use vstd::prelude::*;
use vstd::string::StrSliceExecFns;

use crate::kwc::KwcEntry;
use crate::kwc::KwcSet;
use crate::kwc::KwcVal;
use crate::kwc::kwc_inc;
use crate::kwc::kwc_kinds_none;
use crate::muncher::CompiledRule;
use crate::muncher::Muncher;
use crate::muncher::list_match;
use crate::muncher::match_line;
use crate::muncher::regex_capture;
use crate::muncher::regex_match;
use crate::muncher::rule_capture;
use crate::muncher::rule_sources;
use crate::strset::StrSet;
use crate::tech::Tech;
use crate::tech::data_kinds_none;
use crate::text::first_idx2;
use crate::text::lemma_first_idx2_bounds;
use crate::text::find_first_of2_from;

verus! {

/// Whether the bytes decode as Unicode text under byte-order-mark
/// sniffing.
pub uninterp spec fn utf8_ok(bytes: Seq<u8>) -> bool;

/// The text the bytes decode to, when they do.
pub uninterp spec fn utf8_text(bytes: Seq<u8>) -> Seq<char>;

/// Whether the bytes decode under the WINDOWS-1252 fallback.
pub uninterp spec fn w1252_ok(bytes: Seq<u8>) -> bool;

/// The text of the WINDOWS-1252 fallback, when it decodes.
pub uninterp spec fn w1252_text(bytes: Seq<u8>) -> Seq<char>;

/// Decode a blob as Unicode text.
///
/// Relies on encoding_rs_io's DecodeReaderBytes: it sniffs a byte-order
/// mark and otherwise reads UTF-8; whether it succeeds, and the text it
/// yields, depend on the bytes alone, and no bytes yield no text.
#[verifier::external_body]
fn decode_utf8(bytes: &Vec<u8>) -> (r: Option<String>)
    ensures
        r is Some == utf8_ok(bytes@),
        r matches Some(s) ==> s@ == utf8_text(bytes@) && (bytes@.len() == 0 ==> s@.len() == 0),
        r is Some || bytes@.len() > 0,
{
    let mut decoder = encoding_rs_io::DecodeReaderBytes::new(&bytes[..]);
    let mut out = String::new();
    match std::io::Read::read_to_string(&mut decoder, &mut out) {
        Ok(_) => Some(out),
        Err(_) => None,
    }
}

/// Decode a blob under the WINDOWS-1252 fallback.
///
/// Relies on encoding_rs's WINDOWS_1252 through encoding_rs_io's builder:
/// whether it succeeds, and the text it yields, depend on the bytes alone.
#[verifier::external_body]
fn decode_w1252(bytes: &Vec<u8>) -> (r: Option<String>)
    ensures
        r is Some == w1252_ok(bytes@),
        r matches Some(s) ==> s@ == w1252_text(bytes@),
{
    let mut decoder = encoding_rs_io::DecodeReaderBytesBuilder::new().encoding(
        Some(encoding_rs::WINDOWS_1252),
    ).build(&bytes[..]);
    let mut out = String::new();
    match std::io::Read::read_to_string(&mut decoder, &mut out) {
        Ok(_) => Some(out),
        Err(_) => None,
    }
}

/// The lines of a text: split on any line break, with the line after the
/// last break dropped exactly when it is empty.
pub open spec fn split_lines(s: Seq<char>) -> Seq<Seq<char>>
    decreases s.len(),
{
    if s.len() == 0 {
        Seq::empty()
    } else {
        let i = first_idx2(s, '\n', '\r');
        if i < 0 || i >= s.len() {
            seq![s]
        } else {
            let step: int = if s[i] == '\r' && i + 1 < s.len() && s[i + 1] == '\n' {
                2
            } else {
                1
            };
            seq![s.take(i)] + split_lines(s.skip(i + step))
        }
    }
}

/// Split a text into its lines.
pub fn split_into_lines(s: &String) -> (r: Vec<String>)
    ensures
        r@.map_values(|l: String| l@) == split_lines(s@),
{
    let text = s.as_str();
    let n = text.unicode_len();
    let mut r: Vec<String> = Vec::new();
    let mut p: usize = 0;
    proof {
        assert(s@.skip(0) =~= s@);
        assert(r@.map_values(|l: String| l@) =~= Seq::<Seq<char>>::empty());
    }
    while p < n
        invariant
            n == s@.len(),
            text@ == s@,
            p <= n,
            r@.map_values(|l: String| l@) + split_lines(s@.skip(p as int)) =~= split_lines(s@),
        decreases n - p,
    {
        let suffix_len = n - p;
        proof {
            assert(s@.skip(p as int).len() == suffix_len as int);
            lemma_first_idx2_bounds(s@.skip(p as int), '\n', '\r');
        }
        match find_first_of2_from(text, '\n', '\r', p) {
            None => {
                r.push(text.substring_char(p, n).to_owned());
                proof {
                    let suf = s@.skip(p as int);
                    assert(suf =~= s@.subrange(p as int, n as int));
                    assert(r@.map_values(|l: String| l@) =~= r@.map_values(
                        |l: String| l@,
                    ).drop_last().push(suf));
                    assert(r@.map_values(|l: String| l@).drop_last() + (seq![suf]
                        + split_lines(Seq::<char>::empty())) =~= r@.map_values(|l: String| l@)
                        + split_lines(Seq::<char>::empty()));
                }
                p = n;
            },
            Some(q) => {
                let ghost suf = s@.skip(p as int);
                proof {
                    assert(forall|j: int| 0 <= j < suf.len() ==> suf[j] == s@[p + j]);
                }
                r.push(text.substring_char(p, q).to_owned());
                let two = q + 1 < n && text.get_char(q) == '\r' && text.get_char(q + 1) == '\n';
                let step: usize = if two {
                    2
                } else {
                    1
                };
                proof {
                    let i = q - p as int;
                    assert(suf[i] == s@[q as int]);
                    assert(suf.take(i) =~= s@.subrange(p as int, q as int));
                    assert(suf.skip(i + step) =~= s@.skip(q + step));
                    assert(split_lines(suf) =~= seq![suf.take(i)] + split_lines(
                        suf.skip(i + step),
                    ));
                    assert(r@.map_values(|l: String| l@) =~= r@.map_values(
                        |l: String| l@,
                    ).drop_last().push(suf.take(i)));
                    assert(r@.map_values(|l: String| l@).drop_last().push(suf.take(i))
                        + split_lines(s@.skip(q + step)) =~= r@.map_values(|l: String| l@)
                        .drop_last() + split_lines(suf));
                }
                p = q + step;
            },
        }
    }
    proof {
        assert(s@.skip(n as int) =~= Seq::<char>::empty());
    }
    r
}

/// The pattern lists of a muncher, as its classifier sees them.
pub struct RuleView {
    pub bracket_only: Seq<Seq<char>>,
    pub line_comments: Seq<Seq<char>>,
    pub inline_comments: Seq<Seq<char>>,
    pub doc_comments: Seq<Seq<char>>,
    pub block_comments_start: Seq<Seq<char>>,
    pub block_comments_end: Seq<Seq<char>>,
    pub refs: Seq<Seq<char>>,
    pub packages: Seq<Seq<char>>,
    pub keywords: Seq<Seq<char>>,
    pub blank: Seq<Seq<char>>,
}

/// The rule view of a muncher.
pub open spec fn rules_view(m: Muncher) -> RuleView {
    RuleView {
        bracket_only: rule_sources(m.bracket_only_regex@),
        line_comments: rule_sources(m.line_comments_regex@),
        inline_comments: rule_sources(m.inline_comments_regex@),
        doc_comments: rule_sources(m.doc_comments_regex@),
        block_comments_start: rule_sources(m.block_comments_start_regex@),
        block_comments_end: rule_sources(m.block_comments_end_regex@),
        refs: rule_sources(m.refs_regex@),
        packages: rule_sources(m.packages_regex@),
        keywords: rule_sources(m.keywords_regex@),
        blank: rule_sources(m.blank_line_regex@),
    }
}

/// The classifier's state: whether a block comment is open, the line
/// counters, and the harvested tokens.
pub struct ProcState {
    pub in_block: bool,
    pub code_lines: nat,
    pub line_comments: nat,
    pub block_comments: nat,
    pub docs_comments: nat,
    pub inline_comments: nat,
    pub blank_lines: nat,
    pub bracket_only_lines: nat,
    pub keywords: Map<Seq<char>, KwcVal>,
    pub refs: Map<Seq<char>, KwcVal>,
    pub pkgs: Map<Seq<char>, KwcVal>,
}

/// The state before any line.
pub open spec fn init_state() -> ProcState {
    ProcState {
        in_block: false,
        code_lines: 0,
        line_comments: 0,
        block_comments: 0,
        docs_comments: 0,
        inline_comments: 0,
        blank_lines: 0,
        bracket_only_lines: 0,
        keywords: Map::empty(),
        refs: Map::empty(),
        pkgs: Map::empty(),
    }
}

/// One token per matching pattern, each counted once.
pub open spec fn harvest(
    pats: Seq<Seq<char>>,
    line: Seq<char>,
    m: Map<Seq<char>, KwcVal>,
) -> Map<Seq<char>, KwcVal>
    decreases pats.len(),
{
    if pats.len() == 0 {
        m
    } else {
        let p = harvest(pats.drop_last(), line, m);
        if regex_match(pats.last(), line) {
            kwc_inc(p, regex_capture(pats.last(), line), None, 1)
        } else {
            p
        }
    }
}

/// Classify one line: the first matching class wins, in the order block
/// comment, block start, doc comment, line comment, inline comment,
/// bracket-only, blank, code; a code line is harvested.
pub open spec fn proc_step(rv: RuleView, st: ProcState, line: Seq<char>) -> ProcState {
    if st.in_block {
        ProcState {
            block_comments: st.block_comments + 1,
            in_block: !list_match(rv.block_comments_end, line),
            ..st
        }
    } else if list_match(rv.block_comments_start, line) {
        ProcState {
            block_comments: st.block_comments + 1,
            in_block: !list_match(rv.block_comments_end, line),
            ..st
        }
    } else if list_match(rv.doc_comments, line) {
        ProcState { docs_comments: st.docs_comments + 1, ..st }
    } else if list_match(rv.line_comments, line) {
        ProcState { line_comments: st.line_comments + 1, ..st }
    } else if list_match(rv.inline_comments, line) {
        ProcState { inline_comments: st.inline_comments + 1, ..st }
    } else if list_match(rv.bracket_only, line) {
        ProcState { bracket_only_lines: st.bracket_only_lines + 1, ..st }
    } else if list_match(rv.blank, line) {
        ProcState { blank_lines: st.blank_lines + 1, ..st }
    } else {
        ProcState {
            code_lines: st.code_lines + 1,
            refs: harvest(rv.refs, line, st.refs),
            pkgs: harvest(rv.packages, line, st.pkgs),
            keywords: harvest(rv.keywords, line, st.keywords),
            ..st
        }
    }
}

/// Classify a whole sequence of lines, first to last.
pub open spec fn proc_fold(rv: RuleView, st: ProcState, lines: Seq<Seq<char>>) -> ProcState
    decreases lines.len(),
{
    if lines.len() == 0 {
        st
    } else {
        proc_step(rv, proc_fold(rv, st, lines.drop_last()), lines.last())
    }
}

/// The sum of the classifier's line counters.
pub open spec fn counted(st: ProcState) -> nat {
    st.code_lines + st.line_comments + st.block_comments + st.docs_comments + st.inline_comments
        + st.blank_lines + st.bracket_only_lines
}

/// Every line lands in exactly one class: the counters of the classifier
/// add up to the number of lines it read.
pub proof fn lemma_total_lines_conserved(rv: RuleView, st: ProcState, lines: Seq<Seq<char>>)
    ensures
        counted(proc_fold(rv, st, lines)) == counted(st) + lines.len(),
    decreases lines.len(),
{
    if lines.len() > 0 {
        lemma_total_lines_conserved(rv, st, lines.drop_last());
    }
}

proof fn lemma_harvest_kinds_none(
    pats: Seq<Seq<char>>,
    line: Seq<char>,
    m: Map<Seq<char>, KwcVal>,
)
    requires
        kwc_kinds_none(m),
    ensures
        kwc_kinds_none(harvest(pats, line, m)),
    decreases pats.len(),
{
    if pats.len() > 0 {
        lemma_harvest_kinds_none(pats.drop_last(), line, m);
    }
}

/// The classifier only ever counts tokens untagged.
proof fn lemma_proc_fold_kinds_none(rv: RuleView, st: ProcState, lines: Seq<Seq<char>>)
    requires
        kwc_kinds_none(st.keywords),
        kwc_kinds_none(st.refs),
        kwc_kinds_none(st.pkgs),
    ensures
        kwc_kinds_none(proc_fold(rv, st, lines).keywords),
        kwc_kinds_none(proc_fold(rv, st, lines).refs),
        kwc_kinds_none(proc_fold(rv, st, lines).pkgs),
    decreases lines.len(),
{
    if lines.len() > 0 {
        lemma_proc_fold_kinds_none(rv, st, lines.drop_last());
        let prev = proc_fold(rv, st, lines.drop_last());
        lemma_harvest_kinds_none(rv.refs, lines.last(), prev.refs);
        lemma_harvest_kinds_none(rv.packages, lines.last(), prev.pkgs);
        lemma_harvest_kinds_none(rv.keywords, lines.last(), prev.keywords);
    }
}

/// Harvest the tokens of the matching rules into the counter set.
fn harvest_tokens(rules: &Vec<CompiledRule>, line: &String, set: &mut KwcSet)
    requires
        old(set).wf(),
    ensures
        final(set).wf(),
        final(set)@ == harvest(rule_sources(rules@), line@, old(set)@),
{
    let ghost m0 = set@;
    let ghost pats = rule_sources(rules@);
    let n = rules.len();
    let mut j: usize = 0;
    proof {
        assert(pats.take(0) =~= Seq::<Seq<char>>::empty());
    }
    while j < n
        invariant
            n == rules@.len(),
            pats == rule_sources(rules@),
            j <= n,
            set.wf(),
            set@ == harvest(pats.take(j as int), line@, m0),
        decreases n - j,
    {
        proof {
            assert(pats.take(j + 1).drop_last() =~= pats.take(j as int));
            assert(pats.take(j + 1).last() == pats[j as int]);
            assert(pats[j as int] == rules@[j as int].src());
        }
        if let Some(token) = rule_capture(&rules[j], line) {
            set.increment(KwcEntry { token, kind: None, count: 1 });
        }
        j += 1;
    }
    proof {
        assert(pats.take(n as int) =~= pats);
    }
}

/// Analyze one file's bytes under a muncher: decode the blob, Unicode
/// first and WINDOWS-1252 second, split it into lines, classify every
/// line, and suppress references that name tree files. A blob that decodes
/// neither way counts as empty. The record carries the file and commit
/// coordinates and the muncher's fingerprint.
pub fn process_file(
    file_name: &String,
    muncher: &Muncher,
    commit_sha1: &String,
    commit_date_epoch: i64,
    commit_date_iso: &String,
    blob_bytes: &Vec<u8>,
    all_tree_files: Option<&StrSet>,
) -> (t: Tech)
    ensures
        t.wf(),
        t.language@ == muncher.language@,
        t.muncher_name@ == muncher.muncher_name@,
        t.file_name matches Some(f) && f@ == file_name@,
        t.commit_sha1 matches Some(c) && c@ == commit_sha1@,
        t.commit_date_epoch == Some(commit_date_epoch),
        t.commit_date_iso matches Some(d) && d@ == commit_date_iso@,
        t.muncher_hash == muncher.muncher_hash,
        t.files == 1,
        t.refs_kw is None,
        t.pkgs_kw is None,
        t.history is None,
        data_kinds_none(t.data()),
        blob_bytes@.len() == 0 ==> t.total_lines == 0,
        t.total_lines as int == t.code_lines + t.line_comments + t.block_comments
            + t.docs_comments + t.inline_comments + t.blank_lines + t.bracket_only_lines,
        processed_as(*muncher, blob_bytes@, opt_tree_view(all_tree_files), t),
{
    let mut tech = Tech {
        language: muncher.language.clone(),
        muncher_name: muncher.muncher_name.clone(),
        file_name: Some(file_name.clone()),
        commit_sha1: Some(commit_sha1.clone()),
        commit_date_epoch: Some(commit_date_epoch),
        commit_date_iso: Some(commit_date_iso.clone()),
        files: 1,
        total_lines: 0,
        code_lines: 0,
        line_comments: 0,
        block_comments: 0,
        docs_comments: 0,
        inline_comments: 0,
        blank_lines: 0,
        bracket_only_lines: 0,
        keywords: KwcSet::new(),
        refs: KwcSet::new(),
        refs_kw: None,
        pkgs: KwcSet::new(),
        pkgs_kw: None,
        history: None,
        muncher_hash: muncher.muncher_hash,
    };
    let text = match decode_utf8(blob_bytes) {
        Some(t) => t,
        None => match decode_w1252(blob_bytes) {
            Some(t) => t,
            None => {
                proof {
                    match opt_tree_view(all_tree_files) {
                        Some(ts) => {
                            assert(crate::tech::kwc_restrict(
                                Map::<Seq<char>, KwcVal>::empty(),
                                ts,
                            ) =~= Map::<Seq<char>, KwcVal>::empty());
                        },
                        None => {},
                    }
                }
                return tech;
            },
        },
    };
    let lines = split_into_lines(&text);
    let ghost lview = split_lines(text@);
    let ghost rv = rules_view(*muncher);
    tech.total_lines = lines.len();
    let n = lines.len();
    let mut in_block = false;
    let mut i: usize = 0;
    proof {
        assert(lview.take(0) =~= Seq::<Seq<char>>::empty());
        lemma_total_lines_conserved(rv, init_state(), lview.take(0));
    }
    while i < n
        invariant
            n == lines@.len(),
            lines@.map_values(|l: String| l@) == lview,
            rv == rules_view(*muncher),
            i <= n,
            tech.keywords.wf(),
            tech.refs.wf(),
            tech.pkgs.wf(),
            tech.refs_kw is None,
            tech.pkgs_kw is None,
            tech.history is None,
            ({
                let st = proc_fold(rv, init_state(), lview.take(i as int));
                &&& in_block == st.in_block
                &&& tech.code_lines as nat == st.code_lines
                &&& tech.line_comments as nat == st.line_comments
                &&& tech.block_comments as nat == st.block_comments
                &&& tech.docs_comments as nat == st.docs_comments
                &&& tech.inline_comments as nat == st.inline_comments
                &&& tech.blank_lines as nat == st.blank_lines
                &&& tech.bracket_only_lines as nat == st.bracket_only_lines
                &&& tech.keywords@ == st.keywords
                &&& tech.refs@ == st.refs
                &&& tech.pkgs@ == st.pkgs
                &&& counted(st) == i as nat
            }),
            tech.language@ == muncher.language@,
            tech.muncher_name@ == muncher.muncher_name@,
            tech.file_name matches Some(f) && f@ == file_name@,
            tech.commit_sha1 matches Some(c) && c@ == commit_sha1@,
            tech.commit_date_epoch == Some(commit_date_epoch),
            tech.commit_date_iso matches Some(d) && d@ == commit_date_iso@,
            tech.muncher_hash == muncher.muncher_hash,
            tech.files == 1,
            tech.total_lines as int == n as int,
        decreases n - i,
    {
        let line = &lines[i];
        proof {
            assert(lview.take(i + 1).drop_last() =~= lview.take(i as int));
            assert(lview.take(i + 1).last() == lview[i as int]);
            assert(lview[i as int] == lines@[i as int]@);
            lemma_total_lines_conserved(rv, init_state(), lview.take(i + 1));
        }
        if in_block {
            tech.block_comments += 1;
            if match_line(&muncher.block_comments_end_regex, line) {
                in_block = false;
            }
        } else if match_line(&muncher.block_comments_start_regex, line) {
            tech.block_comments += 1;
            if !match_line(&muncher.block_comments_end_regex, line) {
                in_block = true;
            }
        } else if match_line(&muncher.doc_comments_regex, line) {
            tech.docs_comments += 1;
        } else if match_line(&muncher.line_comments_regex, line) {
            tech.line_comments += 1;
        } else if match_line(&muncher.inline_comments_regex, line) {
            tech.inline_comments += 1;
        } else if match_line(&muncher.bracket_only_regex, line) {
            tech.bracket_only_lines += 1;
        } else if match_line(&muncher.blank_line_regex, line) {
            tech.blank_lines += 1;
        } else {
            tech.code_lines += 1;
            harvest_tokens(&muncher.refs_regex, line, &mut tech.refs);
            harvest_tokens(&muncher.packages_regex, line, &mut tech.pkgs);
            harvest_tokens(&muncher.keywords_regex, line, &mut tech.keywords);
        }
        i += 1;
    }
    proof {
        assert(lview.take(n as int) =~= lview);
        lemma_proc_fold_kinds_none(rv, init_state(), lview);
    }
    tech.remove_local_imports(all_tree_files)
}

/// The view of the optional tree hint.
pub open spec fn opt_tree_view(o: Option<&StrSet>) -> Option<Set<Seq<char>>> {
    match o {
        Some(t) => Some(t@),
        None => None,
    }
}

/// The record's counters and tokens are those of the classifier run the
/// blob's decoding calls for: the Unicode text when the blob decodes, the
/// WINDOWS-1252 text when only the fallback does, and no lines at all when
/// neither decoding succeeds; references that name tree files, outright or
/// by stem, are suppressed when the tree is given.
pub open spec fn processed_as(
    m: Muncher,
    bytes: Seq<u8>,
    tree: Option<Set<Seq<char>>>,
    t: Tech,
) -> bool {
    if utf8_ok(bytes) {
        counts_match(m, split_lines(utf8_text(bytes)), tree, t)
    } else if w1252_ok(bytes) {
        counts_match(m, split_lines(w1252_text(bytes)), tree, t)
    } else {
        counts_match(m, Seq::empty(), tree, t)
    }
}

/// The set the optional tree stands for; absence bans nothing.
pub open spec fn opt_tree_or_empty(tree: Option<Set<Seq<char>>>) -> Set<Seq<char>> {
    match tree {
        Some(s) => s,
        None => Set::empty(),
    }
}

/// The record holds exactly the classifier's counters over the lines, with
/// the tree's own names removed from the references.
pub open spec fn counts_match(
    m: Muncher,
    lines: Seq<Seq<char>>,
    tree: Option<Set<Seq<char>>>,
    t: Tech,
) -> bool {
    let st = proc_fold(rules_view(m), init_state(), lines);
    &&& t.total_lines as nat == lines.len()
    &&& t.code_lines as nat == st.code_lines
    &&& t.line_comments as nat == st.line_comments
    &&& t.block_comments as nat == st.block_comments
    &&& t.docs_comments as nat == st.docs_comments
    &&& t.inline_comments as nat == st.inline_comments
    &&& t.blank_lines as nat == st.blank_lines
    &&& t.bracket_only_lines as nat == st.bracket_only_lines
    &&& t.keywords@ == st.keywords
    &&& t.pkgs@ == st.pkgs
    &&& t.refs@ == (match tree {
        Some(ts) => crate::tech::kwc_restrict(st.refs, ts),
        None => st.refs,
    })
}

} // verus!
