//! Interpretation of the output of `git ls-remote --symref <url> HEAD refs/heads/**`:
//! which branch is meant, and which commit it points to.
use vstd::prelude::*;
use crate::repo::hash_joined;
use crate::text::{
    chars_eq, chars_of, has_utf8_len, lemma_first_occurrence_some, lemma_split_once_at, occurs_at,
    lemma_split_on_nonempty, push_all, push_str, split_chars, split_on, split_once, split_once_chars, string_of, strip_prefix,
    strip_prefix_chars, strip_suffix, strip_suffix_chars, utf8_len,
};

verus! {

/// Length in bytes of a full commit hash as git prints it.
pub const HASH_LENGTH: usize = 40;

/// The text that precedes the default branch on the first line of the output.
pub open spec fn head_ref_prefix() -> Seq<char> {
    "ref: refs/heads/"@
}

/// The text that follows the default branch on the first line of the output.
pub open spec fn head_ref_suffix() -> Seq<char> {
    "\tHEAD"@
}

/// The text that separates a commit hash from a branch name on later lines.
pub open spec fn branch_ref_separator() -> Seq<char> {
    "\trefs/heads/"@
}

/// The default branch named by the first line of the output, or the empty
/// text where the line does not have the expected shape.
pub open spec fn head_branch_of(line: Seq<char>) -> Seq<char> {
    match strip_prefix(line, head_ref_prefix()) {
        Some(rest) => match strip_suffix(rest, head_ref_suffix()) {
            Some(b) => b,
            None => Seq::<char>::empty(),
        },
        None => Seq::<char>::empty(),
    }
}

/// The branch whose commit is looked up: the one asked for, or the default
/// branch where none was asked for.
pub open spec fn wanted_branch(first_line: Seq<char>, requested: Seq<char>) -> Seq<char> {
    if requested.len() == 0 {
        head_branch_of(first_line)
    } else {
        requested
    }
}

/// The hash on `line` if the line names `branch`.
pub open spec fn line_hash(line: Seq<char>, branch: Seq<char>) -> Option<Seq<char>> {
    match split_once(line, branch_ref_separator()) {
        Some((h, b)) => if b == branch {
            Some(h)
        } else {
            None
        },
        None => None,
    }
}

/// The hash on the first of `lines` that names `branch`.
pub open spec fn first_branch_hash(lines: Seq<Seq<char>>, branch: Seq<char>) -> Option<Seq<char>>
    decreases lines.len(),
{
    if lines.len() == 0 {
        None
    } else {
        match line_hash(lines[0], branch) {
            Some(h) => Some(h),
            None => first_branch_hash(lines.drop_first(), branch),
        }
    }
}

/// What the output of `git ls-remote` says, as far as this service reads it.
pub enum LsRemoteReading {
    /// The commit `hash` of `branch`.
    Found { hash: Seq<char>, branch: Seq<char> },
    /// The output is not UTF-8.
    InvalidOutput,
    /// The output is empty.
    EmptyOutput,
    /// The output has a single line.
    NotEnoughLines,
    /// The hash on the line of the wanted branch is not 40 bytes long.
    InvalidShaLength,
    /// No line names the wanted branch.
    BranchNotFound(Seq<char>),
}

/// The reading of a decoded output `text` when `requested` is the branch
/// asked for (empty for the default branch).
pub open spec fn read_text(text: Seq<char>, requested: Seq<char>) -> LsRemoteReading {
    let lines = split_on(text, '\n');
    if text.len() == 0 {
        LsRemoteReading::EmptyOutput
    } else if lines.len() <= 1 {
        LsRemoteReading::NotEnoughLines
    } else {
        let branch = wanted_branch(lines[0], requested);
        match first_branch_hash(lines.subrange(2, lines.len() as int), branch) {
            Some(h) => if utf8_len(h) == HASH_LENGTH {
                LsRemoteReading::Found { hash: h, branch }
            } else {
                LsRemoteReading::InvalidShaLength
            },
            None => LsRemoteReading::BranchNotFound(branch),
        }
    }
}

/// The reading of the raw bytes that `git ls-remote` wrote.
pub open spec fn read_ls_remote(output: Seq<u8>, requested: Seq<char>) -> LsRemoteReading {
    if vstd::utf8::valid_utf8(output) {
        read_text(vstd::utf8::decode_utf8(output), requested)
    } else {
        LsRemoteReading::InvalidOutput
    }
}

/// Why no commit could be resolved.
pub enum ResolveError {
    InvalidOutput,
    EmptyOutput,
    NotEnoughLines,
    InvalidShaLength,
    BranchNotFound { branch: String },
}

impl ResolveError {
    /// The text that describes this error.
    pub open spec fn spec_message(&self) -> Seq<char> {
        match self {
            ResolveError::InvalidOutput => "Invalid ls-remote output"@,
            ResolveError::EmptyOutput => "Empty ls-remote output"@,
            ResolveError::NotEnoughLines => "Not enough ls-remote lines"@,
            ResolveError::InvalidShaLength => "Invalid SHA length"@,
            ResolveError::BranchNotFound { branch } => "Branch '"@ + branch@ + "' not found"@,
        }
    }

    /// The text that describes this error.
    pub fn message(&self) -> (r: String)
        ensures
            r@ == self.spec_message(),
    {
        match self {
            ResolveError::InvalidOutput => String::from_str("Invalid ls-remote output"),
            ResolveError::EmptyOutput => String::from_str("Empty ls-remote output"),
            ResolveError::NotEnoughLines => String::from_str("Not enough ls-remote lines"),
            ResolveError::InvalidShaLength => String::from_str("Invalid SHA length"),
            ResolveError::BranchNotFound { branch } => {
                let mut cs: Vec<char> = Vec::new();
                push_str(&mut cs, "Branch '");
                push_str(&mut cs, branch.as_str());
                push_str(&mut cs, "' not found");
                string_of(cs.as_slice())
            },
        }
    }
}

/// Whether `r` is what `reading` says.
pub open spec fn agrees(r: Result<String, ResolveError>, reading: LsRemoteReading) -> bool {
    match reading {
        LsRemoteReading::Found { hash, branch } => r matches Ok(s) && s@ == hash_joined(
            hash,
            branch,
        ),
        LsRemoteReading::InvalidOutput => r matches Err(ResolveError::InvalidOutput),
        LsRemoteReading::EmptyOutput => r matches Err(ResolveError::EmptyOutput),
        LsRemoteReading::NotEnoughLines => r matches Err(ResolveError::NotEnoughLines),
        LsRemoteReading::InvalidShaLength => r matches Err(ResolveError::InvalidShaLength),
        LsRemoteReading::BranchNotFound(b) => r matches Err(ResolveError::BranchNotFound { branch })
            && branch@ == b,
    }
}

/// `String::from_utf8`: the text that `bytes` encode in UTF-8, if they are
/// valid UTF-8.
#[verifier::external_body]
fn decode_utf8_bytes(bytes: Vec<u8>) -> (r: Option<String>)
    ensures
        match r {
            Some(s) => vstd::utf8::valid_utf8(bytes@) && s@ == vstd::utf8::decode_utf8(bytes@),
            None => !vstd::utf8::valid_utf8(bytes@),
        },
{
    String::from_utf8(bytes).ok()
}

/// The hash on the first line among `lines[from..]` that names `branch`.
fn find_branch_hash(lines: &Vec<Vec<char>>, from: usize, branch: &[char]) -> (r: Option<Vec<char>>)
    requires
        from <= lines@.len(),
    ensures
        match r {
            Some(h) => first_branch_hash(
                lines@.map_values(|l: Vec<char>| l@).subrange(from as int, lines@.len() as int),
                branch@,
            ) == Some(h@),
            None => first_branch_hash(
                lines@.map_values(|l: Vec<char>| l@).subrange(from as int, lines@.len() as int),
                branch@,
            ) is None,
        },
{
    let ghost all = lines@.map_values(|l: Vec<char>| l@);
    let sep = chars_of("\trefs/heads/");
    let mut i: usize = from;
    while i < lines.len()
        invariant
            from <= i <= lines@.len(),
            all == lines@.map_values(|l: Vec<char>| l@),
            sep@ == branch_ref_separator(),
            first_branch_hash(all.subrange(from as int, all.len() as int), branch@)
                == first_branch_hash(all.subrange(i as int, all.len() as int), branch@),
        decreases lines@.len() - i,
    {
        let ghost rest = all.subrange(i as int, all.len() as int);
        assert(rest[0] == lines@[i as int]@);
        assert(rest.drop_first() =~= all.subrange(i + 1, all.len() as int));
        match split_once_chars(lines[i].as_slice(), sep.as_slice()) {
            Some((h, b)) => {
                if chars_eq(b.as_slice(), branch) {
                    return Some(h);
                }
            },
            None => {},
        }
        i = i + 1;
    }
    None
}

/// Interprets what `git ls-remote --symref <url> HEAD refs/heads/**` wrote:
/// the branch is `requested`, or the default branch where `requested` is
/// empty; on success the result is the commit hash of that branch, `#`, and
/// the branch name.
pub fn resolve_from_ls_remote(output: Vec<u8>, requested: &str) -> (r: Result<String, ResolveError>)
    ensures
        agrees(r, read_ls_remote(output@, requested@)),
{
    let ghost bytes = output@;
    let text = match decode_utf8_bytes(output) {
        Some(t) => t,
        None => {
            return Err(ResolveError::InvalidOutput);
        },
    };
    let chars = chars_of(text.as_str());
    if chars.len() == 0 {
        return Err(ResolveError::EmptyOutput);
    }
    let lines = split_chars(chars.as_slice(), '\n');
    let ghost spec_lines = split_on(chars@, '\n');
    assert(lines@.map_values(|l: Vec<char>| l@) =~= spec_lines);
    if lines.len() <= 1 {
        return Err(ResolveError::NotEnoughLines);
    }
    let requested_chars = chars_of(requested);
    let branch: Vec<char> = if requested_chars.len() == 0 {
        let pre = chars_of("ref: refs/heads/");
        let suf = chars_of("\tHEAD");
        match strip_prefix_chars(lines[0].as_slice(), pre.as_slice()) {
            Some(rest) => match strip_suffix_chars(rest.as_slice(), suf.as_slice()) {
                Some(b) => b,
                None => Vec::new(),
            },
            None => Vec::new(),
        }
    } else {
        requested_chars
    };
    assert(branch@ == wanted_branch(spec_lines[0], requested@));
    match find_branch_hash(&lines, 2, branch.as_slice()) {
        Some(h) => {
            if !has_utf8_len(h.as_slice(), HASH_LENGTH) {
                return Err(ResolveError::InvalidShaLength);
            }
            let mut out = h;
            out.push('#');
            push_all(&mut out, branch.as_slice());
            Ok(string_of(out.as_slice()))
        },
        None => Err(ResolveError::BranchNotFound { branch: string_of(branch.as_slice()) }),
    }
}

/// Splits `hash#branch` at its first `#` (`str::split_once('#')`).
pub fn split_hash_and_branch(s: &str) -> (r: Option<(String, String)>)
    ensures
        match r {
            Some((h, b)) => split_once(s@, seq!['#']) == Some((h@, b@)),
            None => split_once(s@, seq!['#']) is None,
        },
{
    let cs = chars_of(s);
    let mut pat: Vec<char> = Vec::new();
    pat.push('#');
    assert(pat@ =~= seq!['#']);
    match split_once_chars(cs.as_slice(), pat.as_slice()) {
        Some((h, b)) => Some((string_of(h.as_slice()), string_of(b.as_slice()))),
        None => None,
    }
}

/// Without a requested branch the branch named by the first line,
/// `ref: refs/heads/<name>\tHEAD`, is wanted; a requested branch is wanted as
/// it is.
pub proof fn law_wanted_branch(first: Seq<char>, name: Seq<char>, requested: Seq<char>)
    ensures
        wanted_branch(head_ref_prefix() + name + head_ref_suffix(), Seq::<char>::empty()) == name,
        requested.len() > 0 ==> wanted_branch(first, requested) == requested,
{
    let line = head_ref_prefix() + name + head_ref_suffix();
    let p = head_ref_prefix();
    let x = head_ref_suffix();
    assert(line.subrange(0, p.len() as int) =~= p);
    let rest = line.subrange(p.len() as int, line.len() as int);
    assert(rest =~= name + x);
    assert(rest.subrange(rest.len() - x.len(), rest.len() as int) =~= x);
    assert(rest.subrange(0, rest.len() - x.len()) =~= name);
}

proof fn lemma_split_without_separator(t: Seq<char>, sep: char)
    requires
        !t.contains(sep),
    ensures
        split_on(t, sep) == seq![t],
    decreases t.len(),
{
    if t.len() > 0 {
        assert(!t.drop_last().contains(sep)) by {
            if t.drop_last().contains(sep) {
                let k = choose|k: int| 0 <= k < t.drop_last().len() && t.drop_last()[k] == sep;
                assert(t[k] == sep);
            }
        }
        lemma_split_without_separator(t.drop_last(), sep);
        assert(t[t.len() - 1] != sep);
        assert(t.drop_last().push(t.last()) =~= t);
        let p = split_on(t.drop_last(), sep);
        assert(p.update(p.len() - 1, p.last().push(t.last())) =~= seq![t]);
    } else {
        assert(t =~= Seq::<char>::empty());
    }
}

proof fn lemma_split_concat(a: Seq<char>, t: Seq<char>, sep: char)
    ensures
        split_on(a.push(sep) + t, sep) == split_on(a, sep) + split_on(t, sep),
    decreases t.len(),
{
    let u = a.push(sep) + t;
    if t.len() == 0 {
        assert(u =~= a.push(sep));
        assert(u.drop_last() =~= a);
        assert(split_on(a, sep) + split_on(t, sep) =~= split_on(a, sep).push(Seq::<char>::empty()));
    } else {
        lemma_split_concat(a, t.drop_last(), sep);
        assert(u.drop_last() =~= a.push(sep) + t.drop_last());
        assert(u.last() == t.last());
        let x = split_on(a, sep);
        let y = split_on(t.drop_last(), sep);
        lemma_split_on_nonempty(t.drop_last(), sep);
        if t.last() == sep {
            assert((x + y).push(Seq::<char>::empty()) =~= x + y.push(Seq::<char>::empty()));
        } else {
            let z = x + y;
            assert(z.update(z.len() - 1, z.last().push(t.last())) =~= x + y.update(
                y.len() - 1,
                y.last().push(t.last()),
            ));
        }
    }
}

/// A line `<hash>\trefs/heads/<name>` that is the first after the two header
/// lines resolves the branch `<name>`, taken whole (slashes included), to
/// `<hash>`, whatever follows it.
pub proof fn law_branch_line_resolves(
    first: Seq<char>,
    second: Seq<char>,
    hash: Seq<char>,
    branch: Seq<char>,
    rest: Seq<char>,
)
    requires
        !first.contains('\n'),
        !second.contains('\n'),
        !hash.contains('\n'),
        !hash.contains('\t'),
        !branch.contains('\n'),
        branch.len() > 0,
        utf8_len(hash) == HASH_LENGTH,
    ensures
        read_text(
            first.push('\n') + second.push('\n') + (hash + branch_ref_separator() + branch).push(
                '\n',
            ) + rest,
            branch,
        ) == (LsRemoteReading::Found { hash, branch }),
{
    reveal_strlit("\trefs/heads/");
    let sep = branch_ref_separator();
    let line = hash + sep + branch;
    let text = first.push('\n') + second.push('\n') + line.push('\n') + rest;
    assert(!line.contains('\n')) by {
        if line.contains('\n') {
            let k = choose|k: int| 0 <= k < line.len() && line[k] == '\n';
            if k < hash.len() {
                assert(hash[k] == '\n');
            } else if k < hash.len() + sep.len() {
                assert(sep[k - hash.len()] == '\n');
            } else {
                assert(branch[k - hash.len() - sep.len()] == '\n');
            }
        }
    }
    // The lines of the text.
    assert(text =~= first.push('\n') + (second.push('\n') + (line.push('\n') + rest)));
    lemma_split_concat(first, second.push('\n') + (line.push('\n') + rest), '\n');
    lemma_split_concat(second, line.push('\n') + rest, '\n');
    lemma_split_concat(line, rest, '\n');
    lemma_split_without_separator(first, '\n');
    lemma_split_without_separator(second, '\n');
    lemma_split_without_separator(line, '\n');
    let lines = split_on(text, '\n');
    let tail = split_on(rest, '\n');
    assert(lines =~= seq![first] + (seq![second] + (seq![line] + tail)));
    assert(lines[0] == first);
    assert(lines.subrange(2, lines.len() as int) =~= seq![line] + tail);
    // The branch line.
    let h = hash.len() as int;
    assert(line.subrange(h, h + sep.len()) =~= sep);
    assert(occurs_at(line, sep, h));
    assert forall|j: int| 0 <= j < h implies !occurs_at(line, sep, j) by {
        if occurs_at(line, sep, j) {
            assert(line.subrange(j, j + sep.len())[0] == line[j]);
            assert(sep[0] == '\t');
            assert(hash[j] == '\t');
        }
    }
    lemma_first_occurrence_some(line, sep, h);
    lemma_split_once_at(line, sep, h);
    assert(line.subrange(0, h) =~= hash);
    assert(line.subrange(h + sep.len(), line.len() as int) =~= branch);
    assert(line_hash(line, branch) == Some(hash));
    assert((seq![line] + tail)[0] == line);
    assert(text.len() > 0) by {
        assert(text[first.len() as int] == '\n');
    }
}

/// A hash without `#` and any branch name come back unchanged from
/// `hash#branch` when it is split at its first `#`.
pub proof fn law_hash_and_branch_round_trip(hash: Seq<char>, branch: Seq<char>)
    requires
        !hash.contains('#'),
    ensures
        split_once(hash_joined(hash, branch), seq!['#']) == Some((hash, branch)),
{
    let s = hash_joined(hash, branch);
    let pat = seq!['#'];
    let i = hash.len() as int;
    assert(s.subrange(i, i + 1) =~= pat);
    assert(occurs_at(s, pat, i));
    assert forall|j: int| 0 <= j < i implies !occurs_at(s, pat, j) by {
        if occurs_at(s, pat, j) {
            assert(s.subrange(j, j + 1)[0] == s[j]);
            assert(hash[j] == '#');
            assert(hash.contains('#'));
        }
    }
    lemma_first_occurrence_some(s, pat, i);
    lemma_split_once_at(s, pat, i);
    assert(s.subrange(0, i) =~= hash);
    assert(s.subrange(i + 1, s.len() as int) =~= branch);
}

} // verus!
