use vstd::prelude::*;
use crate::text::{
    chars_of, index_of_char, lemma_index_of_char, lines, lines_spec, lowercase_of, push_str,
    split_once, split_once_spec, str_eq, strings_seq, substring, to_lowercase, trim, trim_spec,
};
use crate::hashing::{sha256_hex_bytes, sha256_hex_of_bytes, sha512_hex_bytes, sha512_hex_of_bytes};

verus! {

/// Why a checksum could not be read or verified.
#[derive(Debug)]
pub enum ProtoChecksumError {
    /// A lockfile checksum without a `<type>:` prefix.
    MissingChecksumType,
    /// A lockfile checksum with a prefix other than `minisign` or `sha256`.
    UnknownChecksumType { kind: String },
    /// A minisign key, signature or verification failed.
    Minisign,
    /// A minisign checksum was requested without a public key.
    MissingPublicKey,
    /// The algorithm could not be derived from the checksum file.
    UnknownAlgorithm { path: String },
    /// The checksum file names an algorithm other than SHA256 or SHA512.
    UnsupportedAlgorithm { algo: String },
    /// A GPG keyring is not made of public key blocks.
    InvalidGpgKeyring { reason: String },
    /// A GPG key or signature could not be read.
    Gpg,
}

pub open spec fn minisign_prefix() -> Seq<char> {
    seq!['m', 'i', 'n', 'i', 's', 'i', 'g', 'n']
}

pub open spec fn sha256_prefix() -> Seq<char> {
    seq!['s', 'h', 'a', '2', '5', '6']
}

/// The abstract form of a lockfile checksum.
pub enum LockfileChecksumView {
    Minisign(Seq<char>),
    Sha256(Seq<char>),
}

/// A checksum as a lockfile stores it: its type and the hash (or key).
pub enum LockfileChecksum {
    Minisign(String),
    Sha256(String),
}

impl View for LockfileChecksum {
    type V = LockfileChecksumView;

    open spec fn view(&self) -> LockfileChecksumView {
        match self {
            LockfileChecksum::Minisign(h) => LockfileChecksumView::Minisign(h@),
            LockfileChecksum::Sha256(h) => LockfileChecksumView::Sha256(h@),
        }
    }
}

/// The textual form: `minisign:<hash>` or `sha256:<hash>`.
pub open spec fn checksum_text(c: LockfileChecksumView) -> Seq<char> {
    match c {
        LockfileChecksumView::Minisign(h) => minisign_prefix() + seq![':'] + h,
        LockfileChecksumView::Sha256(h) => sha256_prefix() + seq![':'] + h,
    }
}

/// The outcome of reading a lockfile checksum from its textual form.
pub enum ChecksumParse {
    Parsed(LockfileChecksumView),
    MissingType,
    UnknownType(Seq<char>),
}

/// Reading a lockfile checksum: the text before the first `:` names the
/// type, the text after it is the hash.
pub open spec fn parse_checksum(s: Seq<char>) -> ChecksumParse {
    match split_once_spec(s, ':') {
        Some((pre, suf)) => if pre == minisign_prefix() {
            ChecksumParse::Parsed(LockfileChecksumView::Minisign(suf))
        } else if pre == sha256_prefix() {
            ChecksumParse::Parsed(LockfileChecksumView::Sha256(suf))
        } else {
            ChecksumParse::UnknownType(pre)
        },
        None => ChecksumParse::MissingType,
    }
}

impl LockfileChecksum {
    /// Read a checksum from its textual form.
    pub fn from_str(value: &str) -> (r: Result<LockfileChecksum, ProtoChecksumError>)
        ensures
            match (r, parse_checksum(value@)) {
                (Ok(c), ChecksumParse::Parsed(v)) => c@ == v,
                (Err(ProtoChecksumError::MissingChecksumType), ChecksumParse::MissingType) => true,
                (Err(ProtoChecksumError::UnknownChecksumType { kind }), ChecksumParse::UnknownType(k)) => kind@ == k,
                _ => false,
            },
    {
        match split_once(value, ':') {
            Some((pre, suf)) => {
                let m = "minisign";
                let s = "sha256";
                proof {
                    reveal_strlit("minisign");
                    reveal_strlit("sha256");
                    assert(m@ =~= minisign_prefix());
                    assert(s@ =~= sha256_prefix());
                }
                if crate::text::str_eq(pre.as_str(), m) {
                    Ok(LockfileChecksum::Minisign(suf))
                } else if crate::text::str_eq(pre.as_str(), s) {
                    Ok(LockfileChecksum::Sha256(suf))
                } else {
                    Err(ProtoChecksumError::UnknownChecksumType { kind: pre })
                }
            },
            None => Err(ProtoChecksumError::MissingChecksumType),
        }
    }

    /// The textual form of the checksum.
    pub fn to_string(&self) -> (r: String)
        ensures
            r@ == checksum_text(self@),
    {
        let (prefix, hash) = match self {
            LockfileChecksum::Minisign(h) => ("minisign:", h),
            LockfileChecksum::Sha256(h) => ("sha256:", h),
        };
        proof {
            reveal_strlit("minisign:");
            reveal_strlit("sha256:");
        }
        let mut out = String::new();
        push_str(&mut out, prefix);
        push_str(&mut out, hash.as_str());
        proof {
            match self@ {
                LockfileChecksumView::Minisign(h) => {
                    assert(out@ =~= minisign_prefix() + seq![':'] + h);
                },
                LockfileChecksumView::Sha256(h) => {
                    assert(out@ =~= sha256_prefix() + seq![':'] + h);
                },
            }
        }
        out
    }
}

/// Reading the textual form of a checksum gives the checksum back.
pub proof fn lemma_checksum_text_round_trip(c: LockfileChecksumView)
    ensures
        parse_checksum(checksum_text(c)) == ChecksumParse::Parsed(c),
{
    let (pre, h) = match c {
        LockfileChecksumView::Minisign(h) => (minisign_prefix(), h),
        LockfileChecksumView::Sha256(h) => (sha256_prefix(), h),
    };
    let t = pre + seq![':'] + h;
    assert(t == checksum_text(c));
    assert forall|j: int| 0 <= j < pre.len() implies t[j] != ':' by {
        assert(t[j] == pre[j]);
    }
    lemma_index_of_char(t, ':', pre.len() as int);
    assert(t.subrange(0, pre.len() as int) =~= pre);
    assert(t.subrange(pre.len() as int + 1, t.len() as int) =~= h);
}

/// A checksum read from text is written back as the same text.
pub proof fn lemma_checksum_parse_round_trip(s: Seq<char>)
    requires
        parse_checksum(s) is Parsed,
    ensures
        checksum_text(parse_checksum(s)->Parsed_0) == s,
{
    let i = index_of_char(s, ':')->0;
    lemma_index_of_char_found(s, ':');
    assert(s =~= s.subrange(0, i) + seq![':'] + s.subrange(i + 1, s.len() as int));
}

proof fn lemma_index_of_char_found(s: Seq<char>, c: char)
    ensures
        index_of_char(s, c) matches Some(i) ==> 0 <= i < s.len() && s[i] == c,
    decreases s.len(),
{
    if s.len() > 0 {
        lemma_index_of_char_found(s.drop_last(), c);
    }
}

/// A checksum algorithm.
#[derive(Clone, Copy, PartialEq, Eq, Structural, Debug)]
pub enum ChecksumAlgorithm {
    Minisign,
    Sha256,
    Sha512,
}

/// The last position of `c` in `s`.
pub open spec fn last_index_of_char(s: Seq<char>, c: char) -> Option<int>
    decreases s.len(),
{
    if s.len() == 0 {
        None
    } else if s.last() == c {
        Some(s.len() - 1)
    } else {
        last_index_of_char(s.drop_last(), c)
    }
}

/// The extension of a file name: the text after its last `.`, unless the
/// name has no `.` other than a leading one (`Path::extension`).
pub open spec fn extension_of(name: Seq<char>) -> Option<Seq<char>> {
    if name == seq!['.', '.'] {
        None
    } else {
        match last_index_of_char(name, '.') {
            Some(i) => if i > 0 {
                Some(name.subrange(i + 1, name.len() as int))
            } else {
                None
            },
            None => None,
        }
    }
}

pub open spec fn text_minisig() -> Seq<char> { seq!['m', 'i', 'n', 'i', 's', 'i', 'g'] }
pub open spec fn text_sha256sum() -> Seq<char> { sha256_prefix() + seq!['s', 'u', 'm'] }
pub open spec fn text_sha512() -> Seq<char> { seq!['s', 'h', 'a', '5', '1', '2'] }
pub open spec fn text_sha512sum() -> Seq<char> { text_sha512() + seq!['s', 'u', 'm'] }
pub open spec fn text_shasums256() -> Seq<char> {
    seq!['s', 'h', 'a', 's', 'u', 'm', 's', '2', '5', '6', '.', 't', 'x', 't']
}
pub open spec fn text_shasums512() -> Seq<char> {
    seq!['s', 'h', 'a', 's', 'u', 'm', 's', '5', '1', '2', '.', 't', 'x', 't']
}
pub open spec fn text_algorithm() -> Seq<char> {
    seq!['A', 'l', 'g', 'o', 'r', 'i', 't', 'h', 'm']
}
pub open spec fn text_upper_sha256() -> Seq<char> { seq!['S', 'H', 'A', '2', '5', '6'] }
pub open spec fn text_upper_sha512() -> Seq<char> { seq!['S', 'H', 'A', '5', '1', '2'] }
pub open spec fn text_hash() -> Seq<char> { seq!['H', 'a', 's', 'h'] }

/// The algorithm that a checksum file's name reveals: first by its
/// extension, then by the whole name, in any case.
pub open spec fn algorithm_from_name(name: Seq<char>) -> Option<ChecksumAlgorithm> {
    let by_ext = match extension_of(name) {
        Some(e) => if e == text_minisig() || e == minisign_prefix() {
            Some(ChecksumAlgorithm::Minisign)
        } else if e == sha256_prefix() || e == text_sha256sum() {
            Some(ChecksumAlgorithm::Sha256)
        } else if e == text_sha512() || e == text_sha512sum() {
            Some(ChecksumAlgorithm::Sha512)
        } else {
            None
        },
        None => None,
    };
    if by_ext is Some {
        by_ext
    } else if lowercase_of(name) == text_shasums256() {
        Some(ChecksumAlgorithm::Sha256)
    } else if lowercase_of(name) == text_shasums512() {
        Some(ChecksumAlgorithm::Sha512)
    } else {
        None
    }
}

/// The number of bytes that a character takes in UTF-8.
pub open spec fn utf8_width(c: char) -> nat {
    if (c as u32) < 0x80 {
        1
    } else if (c as u32) < 0x800 {
        2
    } else if (c as u32) < 0x10000 {
        3
    } else {
        4
    }
}

/// The number of bytes that a text takes in UTF-8.
pub open spec fn utf8_len(s: Seq<char>) -> nat
    decreases s.len(),
{
    if s.len() == 0 {
        0
    } else {
        utf8_len(s.drop_last()) + utf8_width(s.last())
    }
}

/// The first position of two consecutive spaces.
pub open spec fn double_space_at(s: Seq<char>) -> Option<int>
    decreases s.len(),
{
    if s.len() < 2 {
        None
    } else {
        match double_space_at(s.drop_last()) {
            Some(i) => Some(i),
            None => if s[s.len() - 2] == ' ' && s.last() == ' ' {
                Some(s.len() - 2)
            } else {
                None
            },
        }
    }
}

/// What one line of a checksum file says of the algorithm: `None` to look
/// at the next line; `Some(Ok(a))` when the search ends, with the algorithm
/// found (if any); `Some(Err(v))` for an unsupported algorithm `v`.
pub open spec fn line_algorithm(line: Seq<char>) -> Option<Result<Option<ChecksumAlgorithm>, Seq<char>>> {
    if line.len() == 0 {
        None
    } else if index_of_char(line, ':') is Some {
        let (label, value) = split_once_spec(line, ':')->0;
        if trim_spec(label) == text_algorithm() {
            if trim_spec(value) == text_upper_sha256() {
                Some(Ok(Some(ChecksumAlgorithm::Sha256)))
            } else if trim_spec(value) == text_upper_sha512() {
                Some(Ok(Some(ChecksumAlgorithm::Sha512)))
            } else {
                Some(Err(trim_spec(value)))
            }
        } else {
            None
        }
    } else {
        match double_space_at(line) {
            Some(i) => {
                let n = utf8_len(line.subrange(0, i));
                if n == 64 {
                    Some(Ok(Some(ChecksumAlgorithm::Sha256)))
                } else if n == 128 {
                    Some(Ok(Some(ChecksumAlgorithm::Sha512)))
                } else {
                    Some(Ok(None))
                }
            },
            None => None,
        }
    }
}

/// What the lines of a checksum file say of the algorithm: the first line
/// that decides, else nothing.
pub open spec fn algorithm_from_lines(ls: Seq<Seq<char>>) -> Result<Option<ChecksumAlgorithm>, Seq<char>>
    decreases ls.len(),
{
    if ls.len() == 0 {
        Ok(None)
    } else {
        match line_algorithm(ls[0]) {
            Some(r) => r,
            None => algorithm_from_lines(ls.drop_first()),
        }
    }
}

fn lit_eq(a: &str, b: &str, Ghost(bv): Ghost<Seq<char>>) -> (r: bool)
    requires
        b@ == bv,
    ensures
        r == (a@ == bv),
{
    str_eq(a, b)
}

fn last_dot(cs: &Vec<char>) -> (r: Option<usize>)
    ensures
        match (r, last_index_of_char(cs@, '.')) {
            (Some(i), Some(j)) => i == j && i < cs@.len(),
            (None, None) => true,
            _ => false,
        },
{
    let mut k: usize = cs.len();
    assert(cs@.subrange(0, k as int) =~= cs@);
    while k > 0
        invariant
            k <= cs@.len(),
            last_index_of_char(cs@, '.') == last_index_of_char(cs@.subrange(0, k as int), '.'),
        decreases k,
    {
        assert(cs@.subrange(0, k as int).drop_last() =~= cs@.subrange(0, k - 1));
        if cs[k - 1] == '.' {
            return Some(k - 1);
        }
        k = k - 1;
    }
    None
}

/// The extension of a file name.
pub fn extension(name: &str) -> (r: Option<String>)
    ensures
        match (r, extension_of(name@)) {
            (Some(e), Some(x)) => e@ == x,
            (None, None) => true,
            _ => false,
        },
{
    let cs = chars_of(name);
    if cs.len() == 2 && cs[0] == '.' && cs[1] == '.' {
        assert(cs@ =~= seq!['.', '.']);
        return None;
    }
    assert(cs@ != seq!['.', '.']) by {
        if cs@ == seq!['.', '.'] {
            assert(cs@.len() == 2 && cs@[0] == '.' && cs@[1] == '.');
        }
    }
    match last_dot(&cs) {
        Some(i) => {
            if i > 0 {
                Some(substring(&cs, i + 1, cs.len()))
            } else {
                None
            }
        },
        None => None,
    }
}

/// The algorithm that a checksum file's name reveals, by its extension and
/// then by the whole name.
pub fn algorithm_from_file_name(file_name: &str) -> (r: Option<ChecksumAlgorithm>)
    ensures
        r == algorithm_from_name(file_name@),
{
    proof {
        reveal_strlit("minisig");
        reveal_strlit("minisign");
        reveal_strlit("sha256");
        reveal_strlit("sha256sum");
        reveal_strlit("sha512");
        reveal_strlit("sha512sum");
        reveal_strlit("shasums256.txt");
        reveal_strlit("shasums512.txt");
        assert("minisig"@ =~= text_minisig());
        assert("minisign"@ =~= minisign_prefix());
        assert("sha256"@ =~= sha256_prefix());
        assert("sha256sum"@ =~= text_sha256sum());
        assert("sha512"@ =~= text_sha512());
        assert("sha512sum"@ =~= text_sha512sum());
        assert("shasums256.txt"@ =~= text_shasums256());
        assert("shasums512.txt"@ =~= text_shasums512());
    }
    let by_ext = match extension(file_name) {
        Some(e) => {
            let e = e.as_str();
            if lit_eq(e, "minisig", Ghost(text_minisig())) || lit_eq(e, "minisign", Ghost(minisign_prefix())) {
                Some(ChecksumAlgorithm::Minisign)
            } else if lit_eq(e, "sha256", Ghost(sha256_prefix())) || lit_eq(e, "sha256sum", Ghost(text_sha256sum())) {
                Some(ChecksumAlgorithm::Sha256)
            } else if lit_eq(e, "sha512", Ghost(text_sha512())) || lit_eq(e, "sha512sum", Ghost(text_sha512sum())) {
                Some(ChecksumAlgorithm::Sha512)
            } else {
                None
            }
        },
        None => None,
    };
    if by_ext.is_some() {
        return by_ext;
    }
    let lower = to_lowercase(file_name);
    if lit_eq(lower.as_str(), "shasums256.txt", Ghost(text_shasums256())) {
        Some(ChecksumAlgorithm::Sha256)
    } else if lit_eq(lower.as_str(), "shasums512.txt", Ghost(text_shasums512())) {
        Some(ChecksumAlgorithm::Sha512)
    } else {
        None
    }
}

fn char_width(c: char) -> (r: usize)
    ensures
        r == utf8_width(c),
{
    let v = c as u32;
    if v < 0x80 {
        1
    } else if v < 0x800 {
        2
    } else if v < 0x10000 {
        3
    } else {
        4
    }
}

proof fn lemma_utf8_len_grows(s: Seq<char>, i: int, j: int)
    requires
        0 <= i <= j <= s.len(),
    ensures
        utf8_len(s.subrange(0, i)) <= utf8_len(s.subrange(0, j)),
    decreases j - i,
{
    if i < j {
        lemma_utf8_len_grows(s, i, j - 1);
        assert(s.subrange(0, j).drop_last() =~= s.subrange(0, j - 1));
    }
}

/// The number of bytes the first `end` characters take in UTF-8, or 129
/// when that is more than 128 (which is all a hash length needs).
fn utf8_prefix_len(cs: &Vec<char>, end: usize) -> (r: usize)
    requires
        end <= cs@.len(),
    ensures
        r == if utf8_len(cs@.subrange(0, end as int)) <= 128 {
            utf8_len(cs@.subrange(0, end as int))
        } else {
            129
        },
{
    let mut total: usize = 0;
    let mut i: usize = 0;
    while i < end
        invariant
            i <= end <= cs@.len(),
            total == utf8_len(cs@.subrange(0, i as int)),
            total <= 128,
        decreases end - i,
    {
        assert(cs@.subrange(0, i + 1).drop_last() =~= cs@.subrange(0, i as int));
        total = total + char_width(cs[i]);
        i = i + 1;
        if total > 128 {
            proof {
                lemma_utf8_len_grows(cs@, i as int, end as int);
            }
            return 129;
        }
    }
    total
}

fn find_double_space(cs: &Vec<char>) -> (r: Option<usize>)
    ensures
        match (r, double_space_at(cs@)) {
            (Some(i), Some(j)) => i == j && i + 1 < cs@.len(),
            (None, None) => true,
            _ => false,
        },
{
    if cs.len() < 2 {
        return None;
    }
    let mut i: usize = 0;
    while i < cs.len() - 1
        invariant
            2 <= cs@.len(),
            i + 1 <= cs@.len(),
            forall|j: int| 0 <= j < i ==> !#[trigger] spaces_at(cs@, j),
        decreases cs@.len() - i,
    {
        if cs[i] == ' ' && cs[i + 1] == ' ' {
            proof {
                lemma_double_space(cs@, i as int);
            }
            return Some(i);
        }
        assert(!spaces_at(cs@, i as int));
        i = i + 1;
    }
    proof {
        lemma_double_space(cs@, i as int);
    }
    None
}

pub open spec fn spaces_at(s: Seq<char>, j: int) -> bool {
    s[j] == ' ' && s[j + 1] == ' '
}

proof fn lemma_double_space(s: Seq<char>, i: int)
    requires
        0 <= i,
        i + 1 <= s.len(),
        forall|j: int| 0 <= j < i ==> !#[trigger] spaces_at(s, j),
        i + 1 < s.len() ==> s[i] == ' ' && s[i + 1] == ' ',
    ensures
        double_space_at(s) == if i + 1 < s.len() {
            Some(i)
        } else {
            None::<int>
        },
    decreases s.len(),
{
    if s.len() >= 2 {
        let init = s.drop_last();
        if i + 1 < init.len() {
            assert(init[i] == s[i] && init[i + 1] == s[i + 1]);
            assert forall|j: int| 0 <= j < i implies !#[trigger] spaces_at(init, j) by {
                assert(!spaces_at(s, j));
                assert(init[j] == s[j] && init[j + 1] == s[j + 1]);
            }
            lemma_double_space(init, i);
        } else {
            assert forall|j: int| 0 <= j < init.len() - 1 implies !#[trigger] spaces_at(init, j) by {
                assert(!spaces_at(s, j));
                assert(init[j] == s[j] && init[j + 1] == s[j + 1]);
            }
            lemma_double_space(init, init.len() - 1);
            if i + 1 == s.len() {
                assert(!spaces_at(s, s.len() - 2));
            }
        }
    }
}

/// What one line of a checksum file says of the algorithm.
fn algorithm_of_line(line: &str) -> (r: Option<Result<Option<ChecksumAlgorithm>, String>>)
    ensures
        match (r, line_algorithm(line@)) {
            (None, None) => true,
            (Some(Ok(a)), Some(Ok(b))) => a == b,
            (Some(Err(v)), Some(Err(w))) => v@ == w,
            _ => false,
        },
{
    let cs = chars_of(line);
    if cs.len() == 0 {
        return None;
    }
    proof {
        reveal_strlit("Algorithm");
        reveal_strlit("SHA256");
        reveal_strlit("SHA512");
        assert("Algorithm"@ =~= text_algorithm());
        assert("SHA256"@ =~= text_upper_sha256());
        assert("SHA512"@ =~= text_upper_sha512());
    }
    match split_once(line, ':') {
        Some((label, value)) => {
            proof {
                assert(index_of_char(line@, ':') is Some);
            }
            let label = trim(label.as_str());
            if lit_eq(label.as_str(), "Algorithm", Ghost(text_algorithm())) {
                let value = trim(value.as_str());
                if lit_eq(value.as_str(), "SHA256", Ghost(text_upper_sha256())) {
                    Some(Ok(Some(ChecksumAlgorithm::Sha256)))
                } else if lit_eq(value.as_str(), "SHA512", Ghost(text_upper_sha512())) {
                    Some(Ok(Some(ChecksumAlgorithm::Sha512)))
                } else {
                    Some(Err(value))
                }
            } else {
                None
            }
        },
        None => {
            match find_double_space(&cs) {
                Some(i) => {
                    let n = utf8_prefix_len(&cs, i);
                    if n == 64 {
                        Some(Ok(Some(ChecksumAlgorithm::Sha256)))
                    } else if n == 128 {
                        Some(Ok(Some(ChecksumAlgorithm::Sha512)))
                    } else {
                        Some(Ok(None))
                    }
                },
                None => None,
            }
        },
    }
}

/// What the contents of a checksum file say of the algorithm: a line
/// `Algorithm : <name>` (as written on Windows) or a line `<hash>  <file>`
/// whose hash length reveals it.
pub fn algorithm_from_contents(contents: &str) -> (r: Result<Option<ChecksumAlgorithm>, ProtoChecksumError>)
    ensures
        match (r, algorithm_from_lines(lines_spec(contents@))) {
            (Ok(a), Ok(b)) => a == b,
            (Err(ProtoChecksumError::UnsupportedAlgorithm { algo }), Err(v)) => algo@ == v,
            _ => false,
        },
{
    let ls = lines(contents);
    let ghost lv = strings_seq(ls@);
    let mut i: usize = 0;
    assert(lv.subrange(0, lv.len() as int) =~= lv);
    while i < ls.len()
        invariant
            i <= ls@.len(),
            lv == strings_seq(ls@),
            lv == lines_spec(contents@),
            algorithm_from_lines(lv) == algorithm_from_lines(lv.subrange(i as int, lv.len() as int)),
        decreases ls@.len() - i,
    {
        let ghost rest = lv.subrange(i as int, lv.len() as int);
        assert(rest[0] == lv[i as int]);
        assert(rest.drop_first() =~= lv.subrange(i + 1, lv.len() as int));
        assert(lv[i as int] == ls@[i as int]@);
        match algorithm_of_line(ls[i].as_str()) {
            Some(Ok(a)) => {
                return Ok(a);
            },
            Some(Err(v)) => {
                return Err(ProtoChecksumError::UnsupportedAlgorithm { algo: v });
            },
            None => {},
        }
        i = i + 1;
    }
    Ok(None)
}

/// The algorithm of a checksum file: by its name, else by its contents.
/// `contents` are only read when the name reveals nothing.
pub open spec fn detected_algorithm(name: Seq<char>, contents: Seq<char>) -> Result<ChecksumAlgorithm, Option<Seq<char>>> {
    match algorithm_from_name(name) {
        Some(a) => Ok(a),
        None => match algorithm_from_lines(lines_spec(contents)) {
            Ok(Some(a)) => Ok(a),
            Ok(None) => Err(None),
            Err(v) => Err(Some(v)),
        },
    }
}

/// Detect the algorithm of a checksum file from its name and, when the
/// name reveals nothing, its contents. `path` is the file's path, for the
/// error when nothing reveals it.
pub fn detect_checksum_algorithm(file_name: &str, path: &str, contents: &str) -> (r: Result<ChecksumAlgorithm, ProtoChecksumError>)
    ensures
        match (r, detected_algorithm(file_name@, contents@)) {
            (Ok(a), Ok(b)) => a == b,
            (Err(ProtoChecksumError::UnknownAlgorithm { path: p }), Err(None)) => p@ == path@,
            (Err(ProtoChecksumError::UnsupportedAlgorithm { algo }), Err(Some(v))) => algo@ == v,
            _ => false,
        },
{
    if let Some(a) = algorithm_from_file_name(file_name) {
        return Ok(a);
    }
    match algorithm_from_contents(contents)? {
        Some(a) => Ok(a),
        None => Err(ProtoChecksumError::UnknownAlgorithm { path: path.to_owned() }),
    }
}

/// Whether `s` begins with `p`.
pub open spec fn begins_with(s: Seq<char>, p: Seq<char>) -> bool {
    p.len() <= s.len() && s.subrange(0, p.len() as int) == p
}

/// Whether `s` ends with `p`.
pub open spec fn finishes_with(s: Seq<char>, p: Seq<char>) -> bool {
    p.len() <= s.len() && s.subrange(s.len() - p.len(), s.len() as int) == p
}

fn begins(s: &Vec<char>, p: &Vec<char>) -> (r: bool)
    ensures
        r == begins_with(s@, p@),
{
    if p.len() > s.len() {
        return false;
    }
    let mut i: usize = 0;
    while i < p.len()
        invariant
            p@.len() <= s@.len(),
            i <= p@.len(),
            forall|j: int| 0 <= j < i ==> s@[j] == p@[j],
        decreases p@.len() - i,
    {
        if s[i] != p[i] {
            assert(s@.subrange(0, p@.len() as int)[i as int] != p@[i as int]);
            return false;
        }
        i = i + 1;
    }
    assert(s@.subrange(0, p@.len() as int) =~= p@);
    true
}

fn finishes(s: &Vec<char>, p: &Vec<char>) -> (r: bool)
    ensures
        r == finishes_with(s@, p@),
{
    if p.len() > s.len() {
        return false;
    }
    let off = s.len() - p.len();
    assert(s@.len() == s.len());
    let mut i: usize = 0;
    while i < p.len()
        invariant
            p@.len() <= s@.len(),
            off == s@.len() - p@.len(),
            off + p@.len() == s@.len(),
            s@.len() <= usize::MAX,
            i <= p@.len(),
            forall|j: int| 0 <= j < i ==> s@[off + j] == p@[j],
        decreases p@.len() - i,
    {
        if s[off + i] != p[i] {
            assert(s@.subrange(off as int, s@.len() as int)[i as int] != p@[i as int]);
            return false;
        }
        i = i + 1;
    }
    assert(s@.subrange(off as int, s@.len() as int) =~= p@);
    true
}

/// What one line of a SHA checksum file says of the hash: `Some(true)` for
/// a line that is the hash, or begins with it and ends with the file's
/// name; for a Windows `Hash : <HASH>` line, whether its hash, lowercased,
/// is the one expected; `None` to look at the next line.
pub open spec fn sha_line_verdict(line: Seq<char>, hash: Seq<char>, file_name: Seq<char>) -> Option<bool> {
    if line.len() == 0 {
        None
    } else if line == hash || (begins_with(line, hash) && finishes_with(line, file_name)) {
        Some(true)
    } else if begins_with(line, text_hash()) && index_of_char(line, ':') is Some {
        Some(lowercase_of(trim_spec(split_once_spec(line, ':').unwrap().1)) == hash)
    } else {
        None
    }
}

/// Whether a SHA checksum file vouches for the hash: the first line that
/// decides, else not.
pub open spec fn sha_verdict(ls: Seq<Seq<char>>, hash: Seq<char>, file_name: Seq<char>) -> bool
    decreases ls.len(),
{
    if ls.len() == 0 {
        false
    } else {
        match sha_line_verdict(ls[0], hash, file_name) {
            Some(b) => b,
            None => sha_verdict(ls.drop_first(), hash, file_name),
        }
    }
}

/// A line of a SHA checksum file that starts with the expected hash and
/// ends with the download's name vouches for the download, whatever lies
/// between them (two spaces for text mode, ` *` for binary mode, or
/// anything else), as long as no Windows `Hash :` line comes before it.
pub proof fn lemma_hash_and_name_line_vouches(ls: Seq<Seq<char>>, hash: Seq<char>, file_name: Seq<char>, i: int)
    requires
        0 <= i < ls.len(),
        ls[i].len() > 0,
        begins_with(ls[i], hash),
        finishes_with(ls[i], file_name),
        forall|j: int| 0 <= j < i ==> !begins_with(#[trigger] ls[j], text_hash()),
    ensures
        sha_verdict(ls, hash, file_name),
    decreases i,
{
    if i > 0 {
        assert(!begins_with(ls[0], text_hash()));
        let rest = ls.drop_first();
        assert forall|j: int| 0 <= j < i - 1 implies !begins_with(#[trigger] rest[j], text_hash()) by {
            assert(rest[j] == ls[j + 1]);
        }
        assert(rest[i - 1] == ls[i]);
        lemma_hash_and_name_line_vouches(rest, hash, file_name, i - 1);
    }
}

/// Whether the contents of a SHA checksum file vouch for the hash of the
/// downloaded file named `download_file_name`.
pub fn verify_sha_checksum(download_file_name: &str, contents: &str, checksum_hash: &str) -> (r: bool)
    ensures
        r == sha_verdict(lines_spec(contents@), checksum_hash@, download_file_name@),
{
    let ls = lines(contents);
    let ghost lv = strings_seq(ls@);
    let hash = chars_of(checksum_hash);
    let name = chars_of(download_file_name);
    let hash_word = chars_of("Hash");
    proof {
        reveal_strlit("Hash");
        assert(hash_word@ =~= text_hash());
    }
    let mut i: usize = 0;
    assert(lv.subrange(0, lv.len() as int) =~= lv);
    while i < ls.len()
        invariant
            i <= ls@.len(),
            lv == strings_seq(ls@),
            lv == lines_spec(contents@),
            hash@ == checksum_hash@,
            name@ == download_file_name@,
            hash_word@ == text_hash(),
            sha_verdict(lv, checksum_hash@, download_file_name@) == sha_verdict(
                lv.subrange(i as int, lv.len() as int),
                checksum_hash@,
                download_file_name@,
            ),
        decreases ls@.len() - i,
    {
        let ghost rest = lv.subrange(i as int, lv.len() as int);
        assert(rest[0] == lv[i as int]);
        assert(rest.drop_first() =~= lv.subrange(i + 1, lv.len() as int));
        assert(lv[i as int] == ls@[i as int]@);
        let line = chars_of(ls[i].as_str());
        if line.len() > 0 {
            if str_eq(ls[i].as_str(), checksum_hash) || (begins(&line, &hash) && finishes(&line, &name)) {
                return true;
            }
            if begins(&line, &hash_word) {
                match split_once(ls[i].as_str(), ':') {
                    Some((_, h)) => {
                        let lower = to_lowercase(trim(h.as_str()).as_str());
                        return str_eq(lower.as_str(), checksum_hash);
                    },
                    None => {},
                }
            }
        }
        i = i + 1;
    }
    false
}

/// The abstract form of a checksum.
pub struct ChecksumView {
    pub algo: ChecksumAlgorithm,
    pub hash: Option<Seq<char>>,
    pub key: Option<Seq<char>>,
}

/// A checksum to verify a download with: the algorithm, and the hash (for
/// SHA) or the public key (for minisign).
pub struct Checksum {
    pub algo: ChecksumAlgorithm,
    pub hash: Option<String>,
    pub key: Option<String>,
}

impl View for Checksum {
    type V = ChecksumView;

    open spec fn view(&self) -> ChecksumView {
        ChecksumView {
            algo: self.algo,
            hash: match self.hash {
                Some(h) => Some(h@),
                None => None,
            },
            key: match self.key {
                Some(k) => Some(k@),
                None => None,
            },
        }
    }
}

/// Generate the checksum that a download is recorded with, for the
/// algorithm of its checksum file: the public key for minisign (which must
/// be provided), else the SHA512 or SHA256 hash of the download.
pub fn generate_checksum(algo: ChecksumAlgorithm, download: &[u8], checksum_public_key: Option<&str>) -> (r: Result<Checksum, ProtoChecksumError>)
    ensures
        match algo {
            ChecksumAlgorithm::Minisign => match checksum_public_key {
                Some(k) => r matches Ok(c) && c@ == (ChecksumView { algo: ChecksumAlgorithm::Minisign, hash: None, key: Some(k@) }),
                None => r matches Err(ProtoChecksumError::MissingPublicKey),
            },
            ChecksumAlgorithm::Sha512 => r matches Ok(c) && c@ == (ChecksumView { algo: ChecksumAlgorithm::Sha512, hash: Some(sha512_hex_of_bytes(download@)), key: None }),
            ChecksumAlgorithm::Sha256 => r matches Ok(c) && c@ == (ChecksumView { algo: ChecksumAlgorithm::Sha256, hash: Some(sha256_hex_of_bytes(download@)), key: None }),
        },
{
    match algo {
        ChecksumAlgorithm::Minisign => match checksum_public_key {
            Some(k) => Ok(Checksum { algo: ChecksumAlgorithm::Minisign, hash: None, key: Some(k.to_owned()) }),
            None => Err(ProtoChecksumError::MissingPublicKey),
        },
        ChecksumAlgorithm::Sha512 => Ok(Checksum { algo: ChecksumAlgorithm::Sha512, hash: Some(sha512_hex_bytes(download)), key: None }),
        ChecksumAlgorithm::Sha256 => Ok(Checksum { algo: ChecksumAlgorithm::Sha256, hash: Some(sha256_hex_bytes(download)), key: None }),
    }
}

#[verifier::external_type_specification]
#[verifier::external_body]
pub struct ExMinisignError(minisign_verify::Error);

/// Whether minisign accepts the signature (in its textual form) of the data
/// under the base64 public key.
pub uninterp spec fn minisign_accepts(key: Seq<char>, data: Seq<u8>, signature: Seq<char>) -> bool;

/// `minisign_verify`'s verification: `PublicKey::from_base64` on the key,
/// `Signature::decode` on the signature text, then `PublicKey::verify` of
/// the data without legacy signatures. The result is claimed to be a
/// function of the three inputs alone; which error comes back is not
/// stated.
#[verifier::external_body]
fn minisign_check(key: &str, data: &[u8], signature: &str) -> (r: Result<(), minisign_verify::Error>)
    ensures
        r is Ok == minisign_accepts(key@, data@, signature@),
{
    let public_key = minisign_verify::PublicKey::from_base64(key)?;
    let decoded = minisign_verify::Signature::decode(signature)?;
    public_key.verify(data, &decoded, false)
}

/// Verify a download against a minisign signature file's contents with the
/// public key.
pub fn verify_minisign_checksum(download: &[u8], signature: &str, checksum_public_key: &str) -> (r: Result<bool, ProtoChecksumError>)
    ensures
        minisign_accepts(checksum_public_key@, download@, signature@) ==> r matches Ok(true),
        !minisign_accepts(checksum_public_key@, download@, signature@) ==> r matches Err(ProtoChecksumError::Minisign),
{
    match minisign_check(checksum_public_key, download, signature) {
        Ok(()) => Ok(true),
        Err(_) => Err(ProtoChecksumError::Minisign),
    }
}

/// Verify a download (named `download_file_name`) against the contents of
/// its checksum file, by the checksum's algorithm: minisign with the
/// checksum's key, SHA with the checksum's hash.
pub fn verify_checksum(
    download_file_name: &str,
    download: &[u8],
    checksum_contents: &str,
    checksum: &Checksum,
) -> (r: Result<bool, ProtoChecksumError>)
    requires
        checksum.algo == ChecksumAlgorithm::Minisign ==> checksum.key is Some,
        checksum.algo != ChecksumAlgorithm::Minisign ==> checksum.hash is Some,
    ensures
        checksum.algo == ChecksumAlgorithm::Minisign ==> if minisign_accepts(
            checksum@.key->0,
            download@,
            checksum_contents@,
        ) {
            r matches Ok(true)
        } else {
            r matches Err(ProtoChecksumError::Minisign)
        },
        checksum.algo != ChecksumAlgorithm::Minisign ==> (r matches Ok(b) && b == sha_verdict(
            lines_spec(checksum_contents@),
            checksum@.hash->0,
            download_file_name@,
        )),
{
    match checksum.algo {
        ChecksumAlgorithm::Minisign => {
            let key = match &checksum.key {
                Some(k) => k,
                None => {
                    return Ok(false);
                },
            };
            verify_minisign_checksum(download, checksum_contents, key.as_str())
        },
        _ => {
            let hash = match &checksum.hash {
                Some(h) => h,
                None => {
                    return Ok(false);
                },
            };
            Ok(verify_sha_checksum(download_file_name, checksum_contents, hash.as_str()))
        },
    }
}

} // verus!
