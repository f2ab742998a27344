//! The allowlist of agents, by their ed25519 SSH public keys.

use vstd::prelude::*;
use vstd::string::*;
use crate::crypto;
use crate::num;
use crate::sig;
use crate::sig::{SigError, SigFault};
use crate::strmap::StrMap;
use crate::text;

verus! {

/// Why there is no allowlist.
#[derive(Debug)]
pub enum SignersError {
    /// The file could not be read.
    Io { path: String, source: String },
    /// A line, counted from 1, names no usable key.
    BadLine { path: String, line: usize, msg: String },
}

/// Why there is no allowlist, as texts and numbers.
#[verifier::ext_equal]
pub enum SignersFault {
    Io { path: Seq<char>, source: Seq<char> },
    BadLine { path: Seq<char>, line: nat, msg: Seq<char> },
}

impl View for SignersError {
    type V = SignersFault;

    open spec fn view(&self) -> SignersFault {
        match *self {
            SignersError::Io { path, source } => SignersFault::Io { path: path@, source: source@ },
            SignersError::BadLine { path, line, msg } => SignersFault::BadLine {
                path: path@,
                line: line as nat,
                msg: msg@,
            },
        }
    }
}

impl SignersFault {
    /// The wording of the error.
    pub open spec fn wording(self) -> Seq<char> {
        match self {
            SignersFault::Io { path, source } => "read "@ + path + ": "@ + source,
            SignersFault::BadLine { path, line, msg } => path + ":"@ + num::decimal(line) + ": "@
                + msg,
        }
    }
}

impl SignersError {
    /// The wording of the error.
    pub fn message(&self) -> (r: String)
        ensures
            r@ == self@.wording(),
    {
        match self {
            SignersError::Io { path, source } => "read ".to_owned().concat(path.as_str()).concat(
                ": ",
            ).concat(source.as_str()),
            SignersError::BadLine { path, line, msg } => path.clone().concat(":").concat(
                num::show(*line as u64).as_str(),
            ).concat(": ").concat(msg.as_str()),
        }
    }
}

// ---------------------------------------------------------------------------
// Lines
// ---------------------------------------------------------------------------
/// What follows the key on a line: the words from the third on.
pub open spec fn comment_in(line: Seq<char>) -> Seq<char> {
    let w = text::words(line);
    if w.len() < 2 {
        Seq::empty()
    } else {
        text::joined(w.skip(2), " "@)
    }
}

/// A line that is empty or starts with `#`, once trimmed, names no key.
pub open spec fn is_remark(line: Seq<char>) -> bool {
    let t = text::trimmed(line);
    t.len() == 0 || t[0] == '#'
}

/// The key, in base64, and the comment of a line that is no remark.
pub open spec fn signer_in(line: Seq<char>) -> Result<(Seq<char>, Seq<char>), SigFault> {
    let t = text::trimmed(line);
    match sig::line_key(t) {
        Ok(k) => Ok((crypto::b64_text(k), comment_in(t))),
        Err(e) => Err(e),
    }
}

/// The keys that lines name, with their comments, or the number of the first
/// line that names no usable key and why.
pub open spec fn signers_in(lines: Seq<Seq<char>>) -> Result<
    Map<Seq<char>, Seq<char>>,
    (nat, SigFault),
>
    decreases lines.len(),
{
    if lines.len() == 0 {
        Ok(Map::empty())
    } else {
        match signers_in(lines.drop_last()) {
            Err(e) => Err(e),
            Ok(m) => if is_remark(lines.last()) {
                Ok(m)
            } else {
                match signer_in(lines.last()) {
                    Ok((key, comment)) => Ok(m.insert(key, comment)),
                    Err(e) => Err((lines.len(), e)),
                }
            },
        }
    }
}

/// The views of the entries of a map.
pub open spec fn entry_texts(m: Map<Seq<char>, String>) -> Map<Seq<char>, Seq<char>> {
    Map::new(|k: Seq<char>| m.contains_key(k), |k: Seq<char>| m[k]@)
}

/// What follows the key on a line.
pub fn comment_of(line: &str) -> (r: String)
    ensures
        r@ == comment_in(line@),
{
    let w = text::split_words(line);
    if w.len() < 2 {
        assert(text::words(line@).len() < 2);
        String::new()
    } else {
        text::join_from(&w, 2, " ")
    }
}

/// Does a line, once trimmed, name no key?
fn remark(t: &str) -> (r: bool)
    ensures
        r == (t@.len() == 0 || t@[0] == '#'),
{
    let v = text::chars_of(t);
    v.len() == 0 || v[0] == '#'
}

/// The keys in the text of an allowlist, or the number of the first bad line
/// and why it is bad.
fn read_signers(data: &str) -> (r: Result<StrMap<String>, (usize, SigError)>)
    ensures
        match r {
            Ok(m) => m.wf() && signers_in(text::text_lines(data@)) == Ok::<
                Map<Seq<char>, Seq<char>>,
                (nat, SigFault),
            >(entry_texts(m@)),
            Err((n, e)) => signers_in(text::text_lines(data@)) == Err::<
                Map<Seq<char>, Seq<char>>,
                (nat, SigFault),
            >((n as nat, e@)),
        },
{
    let lines = text::lines(data);
    let ghost ls = text::text_lines(data@);
    let mut out: StrMap<String> = StrMap::new();
    let mut i: usize = 0;
    assert(entry_texts(out@) =~= Map::<Seq<char>, Seq<char>>::empty());
    while i < lines.len()
        invariant
            i <= lines@.len(),
            ls == text::texts(lines@),
            ls == text::text_lines(data@),
            out.wf(),
            signers_in(ls.take(i as int)) == Ok::<Map<Seq<char>, Seq<char>>, (nat, SigFault)>(
                entry_texts(out@),
            ),
        decreases lines@.len() - i,
    {
        proof {
            assert(ls.take(i + 1).drop_last() =~= ls.take(i as int));
            assert(ls.take(i + 1).last() == lines@[i as int]@);
        }
        let t = text::trim(lines[i].as_str());
        if !remark(t.as_str()) {
            match sig::ed_pub_b64_from_authorized_line(t.as_str()) {
                Ok(key) => {
                    let ghost was = out@;
                    let comment = comment_of(t.as_str());
                    let ghost k = key@;
                    let ghost c = comment@;
                    out.insert(key, comment);
                    assert(entry_texts(out@) =~= entry_texts(was).insert(k, c));
                },
                Err(e) => {
                    proof {
                        bad_line_stays(ls, i + 1, e@);
                    }
                    return Err((i + 1, e));
                },
            }
        }
        i = i + 1;
    }
    assert(ls.take(lines@.len() as int) =~= ls);
    Ok(out)
}

/// A bad line is the first one whatever follows it.
proof fn bad_line_stays(lines: Seq<Seq<char>>, n: int, e: SigFault)
    requires
        0 < n <= lines.len(),
        signers_in(lines.take(n)) == Err::<Map<Seq<char>, Seq<char>>, (nat, SigFault)>(
            (n as nat, e),
        ),
    ensures
        signers_in(lines) == Err::<Map<Seq<char>, Seq<char>>, (nat, SigFault)>((n as nat, e)),
    decreases lines.len(),
{
    if n == lines.len() {
        assert(lines.take(n) =~= lines);
    } else {
        assert(lines.drop_last().take(n) =~= lines.take(n));
        bad_line_stays(lines.drop_last(), n, e);
    }
}

// ---------------------------------------------------------------------------
// The allowlist
// ---------------------------------------------------------------------------
/// The allowlist: the keys, in base64, with their comments. There is one value,
/// which all that look keys up borrow, so that a reload is seen by all of them.
#[derive(Debug)]
pub struct Signers {
    pub path: String,
    pub entries: StrMap<String>,
}

/// The keys that an allowlist file allows, given what was read of it.
pub open spec fn file_signers(path: Seq<char>, read: Result<String, String>) -> Result<
    Map<Seq<char>, Seq<char>>,
    SignersFault,
> {
    match read {
        Err(e) => Err(SignersFault::Io { path, source: e@ }),
        Ok(data) => match signers_in(text::text_lines(data@)) {
            Ok(m) => Ok(m),
            Err((line, e)) => Err(SignersFault::BadLine { path, line, msg: e.wording() }),
        },
    }
}

/// The allowed keys after a reload of what was read: those of the file, or the
/// ones before where it is no allowlist.
pub open spec fn after_reload(
    path: Seq<char>,
    before: Map<Seq<char>, Seq<char>>,
    read: Result<String, String>,
) -> Map<Seq<char>, Seq<char>> {
    match file_signers(path, read) {
        Ok(m) => m,
        Err(_) => before,
    }
}

impl Signers {
    /// The keys stand in order.
    pub open spec fn wf(self) -> bool {
        self.entries.wf()
    }

    /// The allowed keys with their comments.
    pub open spec fn view(self) -> Map<Seq<char>, Seq<char>> {
        entry_texts(self.entries@)
    }

    /// Is the key, in base64, allowed?
    pub open spec fn allows(&self, key: Seq<char>) -> bool {
        self.view().contains_key(key)
    }

    /// The allowlist at a path, given what was read there.
    pub fn load(path: &str, read: Result<String, String>) -> (r: Result<Self, SignersError>)
        ensures
            match r {
                Ok(s) => s.wf() && s.path@ == path@ && file_signers(path@, read) == Ok::<
                    Map<Seq<char>, Seq<char>>,
                    SignersFault,
                >(s@),
                Err(e) => file_signers(path@, read) == Err::<
                    Map<Seq<char>, Seq<char>>,
                    SignersFault,
                >(e@),
            },
    {
        let mut s = Signers { path: path.to_owned(), entries: StrMap::new() };
        match s.reload(read) {
            Ok(_) => Ok(s),
            Err(e) => Err(e),
        }
    }

    /// Replace the allowlist by what was read at its path. Where that is no
    /// allowlist, nothing changes.
    pub fn reload(&mut self, read: Result<String, String>) -> (r: Result<(), SignersError>)
        requires
            old(self).wf(),
        ensures
            final(self).wf(),
            final(self).path == old(self).path,
            final(self)@ == after_reload(old(self).path@, old(self)@, read),
            match r {
                Ok(_) => file_signers(old(self).path@, read) == Ok::<
                    Map<Seq<char>, Seq<char>>,
                    SignersFault,
                >(final(self)@),
                Err(e) => file_signers(old(self).path@, read) == Err::<
                    Map<Seq<char>, Seq<char>>,
                    SignersFault,
                >(e@) && *final(self) == *old(self),
            },
    {
        let data = match read {
            Ok(d) => d,
            Err(e) => {
                return Err(SignersError::Io { path: self.path.clone(), source: e });
            },
        };
        match read_signers(data.as_str()) {
            Ok(m) => {
                self.entries = m;
                Ok(())
            },
            Err((line, e)) => Err(
                SignersError::BadLine { path: self.path.clone(), line, msg: e.message() },
            ),
        }
    }

    /// Is the key, in base64, allowed?
    pub fn contains(&self, ed_pub_b64: &str) -> (r: bool)
        requires
            self.wf(),
        ensures
            r == self.allows(ed_pub_b64@),
    {
        self.entries.contains_key(ed_pub_b64)
    }

    /// How many keys are allowed.
    pub fn len(&self) -> (r: usize)
        requires
            self.wf(),
        ensures
            r == self@.dom().len(),
    {
        assert(self@.dom() =~= self.entries@.dom());
        self.entries.len()
    }
}

/// A key is allowed exactly when a line that is no remark names it; appending a
/// line that names a key allows that key and forbids none.
pub proof fn allowed_iff_named(lines: Seq<Seq<char>>, key: Seq<char>)
    requires
        signers_in(lines) is Ok,
    ensures
        signers_in(lines)->Ok_0.contains_key(key) <==> exists|i: int|
            #![trigger lines[i]]
            0 <= i < lines.len() && !is_remark(lines[i]) && (signer_in(lines[i]) matches Ok(s)
                && s.0 == key),
        forall|line: Seq<char>|
            !is_remark(line) && #[trigger] signer_in(line) is Ok ==> signers_in(
                lines.push(line),
            ) == Ok::<Map<Seq<char>, Seq<char>>, (nat, SigFault)>(
                signers_in(lines)->Ok_0.insert(
                    signer_in(line)->Ok_0.0,
                    signer_in(line)->Ok_0.1,
                ),
            ),
    decreases lines.len(),
{
    assert forall|line: Seq<char>| !is_remark(line) && #[trigger] signer_in(line) is Ok implies
        signers_in(lines.push(line)) == Ok::<Map<Seq<char>, Seq<char>>, (nat, SigFault)>(
        signers_in(lines)->Ok_0.insert(signer_in(line)->Ok_0.0, signer_in(line)->Ok_0.1),
    ) by {
        assert(lines.push(line).drop_last() =~= lines);
    }
    if lines.len() > 0 {
        let init = lines.drop_last();
        allowed_iff_named(init, key);
        let m = signers_in(lines)->Ok_0;
        if m.contains_key(key) {
            if signers_in(init)->Ok_0.contains_key(key) {
                let i = choose|i: int|
                    #![trigger init[i]]
                    0 <= i < init.len() && !is_remark(init[i]) && (signer_in(init[i]) matches Ok(s)
                        && s.0 == key);
                assert(lines[i] == init[i]);
            } else {
                assert(lines[lines.len() - 1] == lines.last());
            }
        }
        if exists|i: int|
            #![trigger lines[i]]
            0 <= i < lines.len() && !is_remark(lines[i]) && (signer_in(lines[i]) matches Ok(s)
                && s.0 == key) {
            let i = choose|i: int|
                #![trigger lines[i]]
                0 <= i < lines.len() && !is_remark(lines[i]) && (signer_in(lines[i]) matches Ok(s)
                    && s.0 == key);
            if i < init.len() {
                assert(init[i] == lines[i]);
            }
        }
    }
}

/// The line that is reported is bad, and every line before it is good or a
/// remark.
pub proof fn first_bad_line(lines: Seq<Seq<char>>)
    ensures
        match signers_in(lines) {
            Ok(_) => forall|i: int|
                0 <= i < lines.len() ==> is_remark(#[trigger] lines[i]) || signer_in(lines[i]) is Ok,
            Err((n, e)) => {
                &&& 1 <= n <= lines.len()
                &&& !is_remark(lines[n - 1])
                &&& signer_in(lines[n - 1]) == Err::<(Seq<char>, Seq<char>), SigFault>(e)
                &&& forall|i: int|
                    0 <= i < n - 1 ==> is_remark(#[trigger] lines[i]) || signer_in(lines[i]) is Ok
            },
        },
    decreases lines.len(),
{
    if lines.len() > 0 {
        let init = lines.drop_last();
        first_bad_line(init);
        assert forall|i: int| 0 <= i < init.len() implies init[i] == #[trigger] lines[i] by {}
    }
}

/// A reload takes over all of a file or nothing of it. Of a file that cannot be
/// read, or that has a bad line, every key stays as it was. Of a good file the
/// keys are exactly those that its lines name, whatever was allowed before.
pub proof fn reload_is_whole(
    path: Seq<char>,
    before: Map<Seq<char>, Seq<char>>,
    read: Result<String, String>,
    key: Seq<char>,
)
    ensures
        file_signers(path, read) is Err ==> after_reload(path, before, read) == before,
        read matches Ok(data) ==> signers_in(text::text_lines(data@)) is Ok ==> {
            let lines = text::text_lines(data@);
            after_reload(path, before, read).contains_key(key) <==> exists|i: int|
                #![trigger lines[i]]
                0 <= i < lines.len() && !is_remark(lines[i]) && (signer_in(lines[i]) matches Ok(s)
                    && s.0 == key)
        },
        file_signers(path, read) is Ok ==> forall|other: Map<Seq<char>, Seq<char>>| #[trigger]
            after_reload(path, other, read) == after_reload(path, before, read),
{
    if let Ok(data) = read {
        let lines = text::text_lines(data@);
        if signers_in(lines) is Ok {
            allowed_iff_named(lines, key);
        }
    }
}

/// A line is a remark if and only if its first character that is no white space
/// is `#`, or it has none. Of any other line the key is the ed25519 key of the
/// public key line that it is, in base64; without one it names no key, and the
/// reason is that the line cannot be read or is a key of another kind.
#[verifier::rlimit(40)]
pub proof fn line_rules(line: Seq<char>)
    ensures
        is_remark(line) <==> (forall|i: int|
            0 <= i < line.len() ==> text::is_space(#[trigger] line[i])) || (exists|i: int|
            0 <= i < line.len() && #[trigger] line[i] == '#' && forall|j: int|
                0 <= j < i ==> text::is_space(#[trigger] line[j])),
        match crypto::ssh_public(text::trimmed(line)) {
            Ok((_, Some(key))) => signer_in(line) is Ok && ({
                let (k, c) = signer_in(line)->Ok_0;
                k == crypto::b64_text(key) && c == comment_in(text::trimmed(line))
            }),
            Ok((algorithm, None)) => signer_in(line) is Err && signer_in(line)->Err_0
                == SigFault::UnsupportedKeyType(algorithm),
            Err(e) => signer_in(line) is Err && signer_in(line)->Err_0 == SigFault::ParsePubkey(e),
        },
{
    text::trim_is_stable(line);
    remark_rule(line);
}

/// Which lines are remarks, by their first character that is no white space.
#[verifier::rlimit(40)]
proof fn remark_rule(line: Seq<char>)
    ensures
        is_remark(line) <==> (forall|i: int|
            0 <= i < line.len() ==> text::is_space(#[trigger] line[i])) || (exists|i: int|
            0 <= i < line.len() && #[trigger] line[i] == '#' && forall|j: int|
                0 <= j < i ==> text::is_space(#[trigger] line[j])),
{
    let n = text::first_solid(line);
    assert(text::trimmed(line).len() == 0 <==> forall|i: int|
        0 <= i < line.len() ==> text::is_space(#[trigger] line[i])) by {
        text::trimmed_is_the_middle(line);
    }
    assert(!text::is_space('#'));
    if text::trimmed(line).len() > 0 {
        assert forall|i: int|
            0 <= i < line.len() && #[trigger] line[i] == '#' && (forall|j: int|
                0 <= j < i ==> text::is_space(#[trigger] line[j])) implies i == n by {
            if i < n {
                assert(text::is_space(line[i]));
            } else if n < i {
                assert(text::is_space(line[n]));
            }
        }
    }
}

/// The comment is the words from the third on, one blank between each two, and
/// empty where there are no more than two.
#[verifier::rlimit(40)]
pub proof fn comment_is_the_rest(line: Seq<char>)
    ensures
        comment_in(line).len() == 0 <==> text::words(line).len() <= 2,
        text::words(line).len() > 2 ==> text::pieces(comment_in(line), text::Sep::Char(' '))
            == text::words(line).skip(2),
{
    let w = text::words(line);
    text::words_are_clean(line);
    if w.len() > 2 {
        let rest = w.skip(2);
        reveal_strlit(" ");
        assert(" "@ =~= seq![' ']);
        assert forall|i: int| 0 <= i < rest.len() implies !(#[trigger] rest[i]).contains(' ') by {
            let x = w[i + 2];
            assert(rest[i] == x);
            if x.contains(' ') {
                assert(!text::is_space(x[x.index_of(' ')]));
            }
        }
        text::joined_splits(rest, ' ');
        let c = comment_in(line);
        if c.len() == 0 {
            assert(text::pieces(c, text::Sep::Char(' ')) == seq![Seq::<char>::empty()]);
            assert(rest[0] == w[2]);
        }
    }
}

/// A remark at the end changes nothing, and neither does any line behind a bad
/// one.
pub proof fn remarks_change_nothing(lines: Seq<Seq<char>>, line: Seq<char>)
    ensures
        is_remark(line) ==> signers_in(lines.push(line)) == signers_in(lines),
        signers_in(lines) is Err ==> signers_in(lines.push(line)) == signers_in(lines),
{
    assert(lines.push(line).drop_last() =~= lines);
}

/// What a file allows is what its lines name, and what is wrong with it is that
/// it cannot be read, or its first bad line, counted from 1.
pub proof fn file_rules(path: Seq<char>, read: Result<String, String>)
    ensures
        match read {
            Err(e) => file_signers(path, read) is Err && file_signers(path, read)->Err_0
                == (SignersFault::Io { path, source: e@ }),
            Ok(data) => {
                let named = signers_in(text::text_lines(data@));
                &&& named is Ok ==> file_signers(path, read) is Ok && file_signers(path, read)->Ok_0
                    == named->Ok_0
                &&& named is Err ==> {
                    let (line, e) = named->Err_0;
                    file_signers(path, read) is Err && file_signers(path, read)->Err_0 == (
                    SignersFault::BadLine { path, line, msg: e.wording() })
                }
            },
        },
{
}

} // verus!
