//! What the version-control system reports: log entries, remote URLs, and
//! the hashes derived from them.

use vstd::prelude::*;
use vstd::string::StrSliceExecFns;
use vstd::string::StringExecFns;

use crate::muncher::CompiledRule;
use crate::muncher::compile_rule;
use crate::muncher::regex_capture;
use crate::muncher::regex_match;
use crate::muncher::regex_ok;
use crate::muncher::rule_capture;
use crate::strset::StrSet;
use crate::text::lowered;
use crate::text::to_lower;
use crate::text::trim;
use crate::text::trimmed;

verus! {

/// One entry of the commit log, newest first.
pub struct GitLogEntry {
    pub sha1: String,
    /// RFC 3339 date of the commit.
    pub date: String,
    /// The commit date in seconds.
    pub date_epoch: i64,
    /// The raw `Name <email>` author pair.
    pub author_name_email: String,
    /// The paths the commit changed, when the log carries them.
    pub files: Vec<String>,
}

/// The SHA-1 digest of a byte sequence.
pub uninterp spec fn sha1_of(bytes: Seq<u8>) -> Seq<u8>;

/// Digest a byte string.
///
/// Relies on the sha1 crate through the digest trait: the SHA-1 of the
/// input, 20 bytes, a function of the bytes alone.
#[verifier::external_body]
fn sha1_digest(bytes: &Vec<u8>) -> (r: Vec<u8>)
    ensures
        r@ == sha1_of(bytes@),
        r@.len() == 20,
{
    let digest = <sha1::Sha1 as sha1::Digest>::digest(bytes.as_slice());
    digest.to_vec()
}

/// The sixteen digits of the hexadecimal rendering.
pub open spec fn hex_digits() -> Seq<char> {
    seq!['0', '1', '2', '3', '4', '5', '6', '7', '8', '9', 'a', 'b', 'c', 'd', 'e', 'f']
}

/// The lowercase hexadecimal rendering of a byte string, two digits per
/// byte.
pub open spec fn hex_of(bytes: Seq<u8>) -> Seq<char>
    decreases bytes.len(),
{
    if bytes.len() == 0 {
        Seq::empty()
    } else {
        hex_of(bytes.drop_last()) + seq![
            hex_digits()[bytes.last() as int / 16],
            hex_digits()[bytes.last() as int % 16],
        ]
    }
}

/// Render a byte string in lowercase hexadecimal.
pub fn to_hex(bytes: &Vec<u8>) -> (r: String)
    ensures
        r@ == hex_of(bytes@),
{
    let digits = "0123456789abcdef";
    proof {
        reveal_strlit("0123456789abcdef");
        assert(digits@ =~= hex_digits());
    }
    let mut r = String::new();
    let n = bytes.len();
    let mut i: usize = 0;
    proof {
        assert(bytes@.take(0) =~= Seq::<u8>::empty());
        assert(r@ =~= hex_of(bytes@.take(0)));
    }
    while i < n
        invariant
            n == bytes@.len(),
            digits@ == hex_digits(),
            i <= n,
            r@ == hex_of(bytes@.take(i as int)),
        decreases n - i,
    {
        let b = bytes[i];
        let hi: usize = (b / 16) as usize;
        let lo: usize = (b % 16) as usize;
        crate::text::push_char(&mut r, digits.get_char(hi));
        crate::text::push_char(&mut r, digits.get_char(lo));
        proof {
            assert(bytes@.take(i + 1).drop_last() =~= bytes@.take(i as int));
            assert(bytes@.take(i + 1).last() == bytes@[i as int]);
            assert(r@ =~= hex_of(bytes@.take(i + 1)));
        }
        i += 1;
    }
    proof {
        assert(bytes@.take(n as int) =~= bytes@);
    }
    r
}

/// The commit identifiers of the log, concatenated in log order.
pub open spec fn concat_shas(log: Seq<GitLogEntry>) -> Seq<char>
    decreases log.len(),
{
    if log.len() == 0 {
        Seq::empty()
    } else {
        concat_shas(log.drop_last()) + log.last().sha1@
    }
}

/// The hash of a commit log: the SHA-1 of the concatenated commit
/// identifiers, in log order, rendered in hexadecimal.
pub open spec fn log_hash_of(log: Seq<GitLogEntry>) -> Seq<char> {
    hex_of(sha1_of(vstd::utf8::encode_utf8(concat_shas(log))))
}

/// Hash the whole commit list, to tell a rewritten history apart.
pub fn hash_commit_list(log: &Vec<GitLogEntry>) -> (r: String)
    ensures
        r@ == log_hash_of(log@),
{
    let mut joined = String::new();
    let n = log.len();
    let mut i: usize = 0;
    proof {
        assert(log@.take(0) =~= Seq::<GitLogEntry>::empty());
        assert(joined@ =~= concat_shas(log@.take(0)));
    }
    while i < n
        invariant
            n == log@.len(),
            i <= n,
            joined@ == concat_shas(log@.take(i as int)),
        decreases n - i,
    {
        joined.append(log[i].sha1.as_str());
        proof {
            assert(log@.take(i + 1).drop_last() =~= log@.take(i as int));
            assert(log@.take(i + 1).last() == log@[i as int]);
        }
        i += 1;
    }
    proof {
        assert(log@.take(n as int) =~= log@);
    }
    let bytes = joined.as_str().as_bytes_vec();
    let digest = sha1_digest(&bytes);
    to_hex(&digest)
}

/// The pattern that extracts a remote URL from the remote listing.
pub open spec fn remote_url_pattern() -> Seq<char> {
    seq!['(', '?', 'i', ')', '\\', 's', '(', 'h', 't', 't', 'p', '.', '*', ')', '\\', '(']
}

/// The normalized form of an extracted URL: trimmed, then folded to lower
/// case.
pub open spec fn normalized_url(captured: Seq<char>) -> Seq<char> {
    lowered(trimmed(captured))
}

/// The hash a remote line contributes, when the pattern matches it.
pub open spec fn remote_line_hash(line: Seq<char>) -> Seq<char> {
    hex_of(
        sha1_of(
            vstd::utf8::encode_utf8(
                normalized_url(regex_capture(remote_url_pattern(), line)),
            ),
        ),
    )
}

/// Hash the remote URLs out of the remote listing: every line the pattern
/// matches contributes the SHA-1 of its normalized URL. Nothing comes back
/// when the pattern itself is refused.
pub fn hash_remote_urls(remote_lines: &Vec<String>) -> (r: Option<StrSet>)
    ensures
        r is Some == regex_ok(remote_url_pattern()),
        r matches Some(s) ==> s.wf() && s@ == Set::new(
            |h: Seq<char>|
                exists|i: int|
                    0 <= i < remote_lines@.len() && regex_match(
                        remote_url_pattern(),
                        #[trigger] remote_lines@[i]@,
                    ) && h == remote_line_hash(remote_lines@[i]@),
        ),
{
    let pattern: String = "(?i)\\s(http.*)\\(".to_owned();
    proof {
        reveal_strlit("(?i)\\s(http.*)\\(");
        assert(pattern@ =~= remote_url_pattern());
    }
    let rule = match compile_rule(&pattern) {
        Some(rule) => rule,
        None => {
            return None;
        },
    };
    let mut out = StrSet::new();
    let n = remote_lines.len();
    let mut i: usize = 0;
    while i < n
        invariant
            n == remote_lines@.len(),
            i <= n,
            rule.src() == remote_url_pattern(),
            out.wf(),
            forall|h: Seq<char>| out@.contains(h) <==> exists|k: int|
                0 <= k < i as int && regex_match(
                    remote_url_pattern(),
                    #[trigger] remote_lines@[k]@,
                ) && h == remote_line_hash(remote_lines@[k]@),
        decreases n - i,
    {
        if let Some(url) = rule_capture(&rule, &remote_lines[i]) {
            let cleaned = to_lower(&trim(&url));
            let bytes = cleaned.as_str().as_bytes_vec();
            let digest = sha1_digest(&bytes);
            let hashed = to_hex(&digest);
            proof {
                assert(hashed@ == remote_line_hash(remote_lines@[i as int]@));
            }
            out.insert(hashed);
        }
        i += 1;
    }
    Some(out)
}

/// Copy one log entry.
pub fn clone_log_entry(e: &GitLogEntry) -> (r: GitLogEntry)
    ensures
        r.sha1 == e.sha1,
        r.date == e.date,
        r.date_epoch == e.date_epoch,
        r.author_name_email == e.author_name_email,
        r.files@ == e.files@,
{
    let mut files: Vec<String> = Vec::new();
    let n = e.files.len();
    let mut i: usize = 0;
    while i < n
        invariant
            n == e.files@.len(),
            i <= n,
            files@.len() == i as int,
            forall|k: int| 0 <= k < i as int ==> #[trigger] files@[k] == e.files@[k],
        decreases n - i,
    {
        files.push(e.files[i].clone());
        i += 1;
    }
    proof {
        assert(files@ =~= e.files@);
    }
    GitLogEntry {
        sha1: e.sha1.clone(),
        date: e.date.clone(),
        date_epoch: e.date_epoch,
        author_name_email: e.author_name_email.clone(),
        files,
    }
}

/// Logs whose entries carry the same commit identifiers concatenate to
/// the same text.
pub proof fn lemma_concat_shas_congruent(s1: Seq<GitLogEntry>, s2: Seq<GitLogEntry>)
    requires
        s1.len() == s2.len(),
        forall|k: int| 0 <= k < s1.len() ==> (#[trigger] s1[k].sha1)@ == s2[k].sha1@,
    ensures
        concat_shas(s1) == concat_shas(s2),
    decreases s1.len(),
{
    if s1.len() > 0 {
        assert(forall|k: int| 0 <= k < s1.len() - 1 ==> #[trigger] s1.drop_last()[k] == s1[k]);
        assert(forall|k: int| 0 <= k < s2.len() - 1 ==> #[trigger] s2.drop_last()[k] == s2[k]);
        lemma_concat_shas_congruent(s1.drop_last(), s2.drop_last());
        assert(s1[s1.len() - 1].sha1@ == s2[s2.len() - 1].sha1@);
    }
}

} // verus!
