//! Converting lists of SSH public keys, as `ssh-keyscan` prints them or
//! `authorized_keys` holds them, to WireGuard public keys.

use vstd::prelude::*;
use vstd::string::*;
use crate::crypto;
use crate::keyderive;
use crate::keyderive::KeyFault;
use crate::text;

verus! {

/// The word looks like the name of a kind of key.
pub open spec fn is_key_type(w: Seq<char>) -> bool {
    text::begins(w, "ssh-"@) || text::begins(w, "ecdsa-"@) || text::begins(w, "sk-"@)
}

/// The kind of key, and the words from it on: what stands before it is a host
/// name or options.
pub open spec fn key_part(words: Seq<Seq<char>>) -> Option<(Seq<char>, Seq<char>)>
    decreases words.len(),
{
    if words.len() == 0 {
        None
    } else if is_key_type(words[0]) {
        Some((words[0], text::joined(words, " "@)))
    } else {
        key_part(words.drop_first())
    }
}

/// The view of a pair of texts that may be absent.
pub open spec fn opt_pair(v: Option<(String, String)>) -> Option<(Seq<char>, Seq<char>)> {
    match v {
        Some(p) => Some((p.0@, p.1@)),
        None => None,
    }
}

/// The kind of key that a line holds, and the line from it on.
pub fn pick_pubkey_part(line: &str) -> (r: Option<(String, String)>)
    ensures
        opt_pair(r) == key_part(text::words(line@)),
{
    let toks = text::split_words(line);
    let ghost ws = text::words(line@);
    let mut i: usize = 0;
    assert(ws.skip(0) =~= ws);
    while i < toks.len()
        invariant
            i <= toks@.len(),
            ws == text::texts(toks@),
            ws == text::words(line@),
            key_part(ws) == key_part(ws.skip(i as int)),
        decreases toks@.len() - i,
    {
        let t = toks[i].as_str();
        proof {
            assert(ws.skip(i as int)[0] == t@);
            assert(ws.skip(i as int).drop_first() =~= ws.skip(i + 1));
        }
        if text::starts_with(t, "ssh-") || text::starts_with(t, "ecdsa-") || text::starts_with(
            t,
            "sk-",
        ) {
            return Some((toks[i].clone(), text::join_from(&toks, i, " ")));
        }
        i = i + 1;
    }
    assert(ws.skip(toks@.len() as int).len() == 0);
    None
}

/// What comes of a line.
#[derive(Debug)]
pub enum Converted {
    /// The line holds no key.
    Nothing,
    /// The key cannot be converted; why.
    Skipped(String),
    /// The WireGuard public key, in base64.
    Key(String),
}

/// What comes of a line, as texts.
#[verifier::ext_equal]
pub enum ConvertedModel {
    Nothing,
    Skipped(Seq<char>),
    Key(Seq<char>),
}

impl View for Converted {
    type V = ConvertedModel;

    open spec fn view(&self) -> ConvertedModel {
        match *self {
            Converted::Nothing => ConvertedModel::Nothing,
            Converted::Skipped(s) => ConvertedModel::Skipped(s@),
            Converted::Key(k) => ConvertedModel::Key(k@),
        }
    }
}

/// What comes of a line whose kind of key is known, given its WireGuard key.
pub open spec fn conversion(kind: Seq<char>, wg: Result<Seq<u8>, KeyFault>) -> ConvertedModel {
    if kind != "ssh-ed25519"@ {
        ConvertedModel::Skipped(
            "skipped key: got "@ + kind + " key type, but only ed25519 keys are supported"@,
        )
    } else {
        match wg {
            Ok(k) => ConvertedModel::Key(crypto::b64_text(k)),
            Err(e) => ConvertedModel::Skipped("skipped key: "@ + e.wording()),
        }
    }
}

/// What comes of a line. Remarks and lines without a key are passed over.
pub open spec fn converted(line: Seq<char>) -> ConvertedModel {
    let t = text::trimmed(line);
    if t.len() == 0 || text::begins(t, "#"@) {
        ConvertedModel::Nothing
    } else {
        match key_part(text::words(t)) {
            None => ConvertedModel::Nothing,
            Some((kind, rest)) => conversion(
                kind,
                keyderive::wg_public_in(crypto::ssh_public(text::trimmed(rest))),
            ),
        }
    }
}

/// What comes of a line.
pub fn convert_line(line: &str) -> (r: Converted)
    ensures
        r@ == converted(line@),
{
    let t = text::trim(line);
    if t.as_str().is_empty() || text::starts_with(t.as_str(), "#") {
        return Converted::Nothing;
    }
    let (kind, rest) = match pick_pubkey_part(t.as_str()) {
        Some(p) => p,
        None => {
            return Converted::Nothing;
        },
    };
    if !text::same(kind.as_str(), "ssh-ed25519") {
        return Converted::Skipped(
            "skipped key: got ".to_owned().concat(kind.as_str()).concat(
                " key type, but only ed25519 keys are supported",
            ),
        );
    }
    match keyderive::wg_pub_from_authorized_line(rest.as_str()) {
        Ok(k) => Converted::Key(crypto::b64_encode(&k)),
        Err(e) => Converted::Skipped("skipped key: ".to_owned().concat(e.message().as_str())),
    }
}

/// The kind of key is the first word that begins with `ssh-`, `ecdsa-` or `sk-`,
/// and the key is that word and all behind it.
pub proof fn first_kind_counts(words: Seq<Seq<char>>, i: int)
    requires
        0 <= i <= words.len(),
        forall|j: int|
            0 <= j < i ==> {
                let w = #[trigger] words[j];
                !text::begins(w, "ssh-"@) && !text::begins(w, "ecdsa-"@) && !text::begins(w, "sk-"@)
            },
        i < words.len() ==> text::begins(words[i], "ssh-"@) || text::begins(words[i], "ecdsa-"@)
            || text::begins(words[i], "sk-"@),
    ensures
        i == words.len() ==> key_part(words) is None,
        i < words.len() ==> key_part(words) == Some(
            (words[i], text::joined(words.skip(i), " "@)),
        ),
    decreases i,
{
    if i > 0 {
        let t = words.drop_first();
        assert(!is_key_type(words[0]));
        assert forall|j: int| 0 <= j < i - 1 implies {
            let w = #[trigger] t[j];
            !text::begins(w, "ssh-"@) && !text::begins(w, "ecdsa-"@) && !text::begins(w, "sk-"@)
        } by {
            assert(t[j] == words[j + 1]);
        }
        first_kind_counts(t, i - 1);
        assert(t.skip(i - 1) =~= words.skip(i));
    } else {
        assert(words.skip(0) =~= words);
    }
}

/// What comes of a line: nothing of a blank one, a remark or one without a key;
/// of an ed25519 key its WireGuard key in base64, if it has one; and of any
/// other the reason why it was skipped.
#[verifier::rlimit(40)]
pub proof fn conversion_rules(line: Seq<char>)
    ensures
        ({
            let t = text::trimmed(line);
            let part = key_part(text::words(t));
            let (kind, rest) = part->0;
            let parsed = crypto::ssh_public(text::trimmed(rest));
            let (algorithm, held) = parsed->Ok_0;
            let key = crypto::ed25519_montgomery(held->0);
            let counts = t.len() > 0 && t[0] != '#' && part is Some;
            match converted(line) {
                ConvertedModel::Nothing => !counts,
                ConvertedModel::Key(k) => counts && kind == "ssh-ed25519"@ && parsed is Ok && held
                    is Some && key is Some && k == crypto::b64_text(key->0),
                ConvertedModel::Skipped(why) => {
                    &&& counts
                    &&& kind != "ssh-ed25519"@ ==> why == "skipped key: got "@ + kind
                        + " key type, but only ed25519 keys are supported"@
                    &&& kind == "ssh-ed25519"@ ==> !(parsed is Ok && held is Some && key is Some)
                },
            }
        }),
{
    let t = text::trimmed(line);
    reveal_strlit("#");
    assert(text::begins(t, "#"@) <==> t.len() > 0 && t[0] == '#') by {
        text::found_means_equal(t, "#"@, 0);
    }
}

} // verus!
