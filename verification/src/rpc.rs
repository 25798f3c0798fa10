//! The paths of ledger state queries: their shapes, and how they are written
//! and read as text.
//!
//! A path is either one of three bare words or a prefix, a `/` and a payload:
//! the text of a storage key or of an asset type. Whether a payload is a
//! valid key or asset type is for the storage layer and the asset registry to
//! say; [`Path::checked`] turns their answer into the path's own result.

use crate::address::Address;
use crate::text::{split_at_first, str_equal};
use vstd::prelude::*;

verus! {

/// A storage key, in its text form.
pub type StorageKey = String;

/// An asset type, in its text form.
pub type AssetType = String;

/// RPC query path
#[derive(Debug, Clone)]
pub enum Path {
    /// Dry run a transaction
    DryRunTx,
    /// Epoch of the last committed block
    Epoch,
    /// Results of all committed blocks
    Results,
    /// Read a storage value with exact storage key
    Value(StorageKey),
    /// Read a range of storage values with a matching key prefix
    Prefix(StorageKey),
    /// Check if the given storage key exists
    HasKey(StorageKey),
    /// Conversion associated with given asset type
    Conversion(AssetType),
}

/// A [`Path`] as mathematical values: payloads are sequences of characters.
pub ghost enum PathView {
    DryRunTx,
    Epoch,
    Results,
    Value(Seq<char>),
    Prefix(Seq<char>),
    HasKey(Seq<char>),
    Conversion(Seq<char>),
}

/// What a path carries besides its shape, and who is to say whether it is
/// valid.
#[derive(Debug, Clone, Copy)]
pub enum Payload<'a> {
    /// Nothing: the path is a bare word.
    Bare,
    /// A storage key, for the storage layer.
    StorageKey(&'a StorageKey),
    /// An asset type, for the asset registry.
    AssetType(&'a AssetType),
}

/// A query for the balance of an owner in a token.
#[derive(Debug, Clone)]
pub struct BalanceQuery {
    #[allow(dead_code)]
    owner: Option<Address>,
    #[allow(dead_code)]
    token: Option<Address>,
}

/// Why a text is no query path.
#[derive(Debug, Clone)]
pub enum PathParseError {
    /// The text has none of the shapes of a path. Holds the text.
    InvalidPath(String),
    /// The storage layer refused the key. Holds what it said.
    InvalidStorageKey(String),
    /// The asset registry refused the asset type. Holds what it said.
    InvalidAssetType(String),
}

/// A [`PathParseError`] as mathematical values.
pub ghost enum PathParseErrorView {
    InvalidPath(Seq<char>),
    InvalidStorageKey(Seq<char>),
    InvalidAssetType(Seq<char>),
}

impl View for Path {
    type V = PathView;

    open spec fn view(&self) -> PathView {
        match self {
            Path::DryRunTx => PathView::DryRunTx,
            Path::Epoch => PathView::Epoch,
            Path::Results => PathView::Results,
            Path::Value(key) => PathView::Value(key@),
            Path::Prefix(key) => PathView::Prefix(key@),
            Path::HasKey(key) => PathView::HasKey(key@),
            Path::Conversion(asset) => PathView::Conversion(asset@),
        }
    }
}

impl View for PathParseError {
    type V = PathParseErrorView;

    open spec fn view(&self) -> PathParseErrorView {
        match self {
            PathParseError::InvalidPath(text) => PathParseErrorView::InvalidPath(text@),
            PathParseError::InvalidStorageKey(said) => PathParseErrorView::InvalidStorageKey(
                said@,
            ),
            PathParseError::InvalidAssetType(said) => PathParseErrorView::InvalidAssetType(said@),
        }
    }
}

/// The index of the first `/` in `text`, or the length of `text` where there
/// is none.
pub open spec fn first_slash(text: Seq<char>) -> int
    decreases text.len(),
{
    if text.len() == 0 {
        0
    } else if text[0] == '/' {
        0
    } else {
        1 + first_slash(text.drop_first())
    }
}

/// The text that a path is written as.
pub open spec fn format_path(path: PathView) -> Seq<char> {
    match path {
        PathView::DryRunTx => "dry_run_tx"@,
        PathView::Epoch => "epoch"@,
        PathView::Results => "results"@,
        PathView::Value(key) => "value"@.push('/') + key,
        PathView::Prefix(key) => "prefix"@.push('/') + key,
        PathView::HasKey(key) => "has_key"@.push('/') + key,
        PathView::Conversion(asset) => "conversion-prefix"@.push('/') + asset,
    }
}

/// The path that a text is read as, if it has the shape of one: a bare word,
/// or a known prefix before the first `/` and anything after it.
pub open spec fn parse_path(text: Seq<char>) -> Option<PathView> {
    if text == "dry_run_tx"@ {
        Some(PathView::DryRunTx)
    } else if text == "epoch"@ {
        Some(PathView::Epoch)
    } else if text == "results"@ {
        Some(PathView::Results)
    } else if first_slash(text) < text.len() {
        let head = text.take(first_slash(text));
        let tail = text.skip(first_slash(text) + 1);
        if head == "value"@ {
            Some(PathView::Value(tail))
        } else if head == "prefix"@ {
            Some(PathView::Prefix(tail))
        } else if head == "has_key"@ {
            Some(PathView::HasKey(tail))
        } else if head == "conversion-prefix"@ {
            Some(PathView::Conversion(tail))
        } else {
            None
        }
    } else {
        None
    }
}

/// The first `/` of a text that has one stands after a head without any.
pub proof fn lemma_first_slash_splits(head: Seq<char>, tail: Seq<char>)
    requires
        !head.contains('/'),
    ensures
        first_slash(head.push('/') + tail) == head.len(),
        (head.push('/') + tail).take(head.len() as int) == head,
        (head.push('/') + tail).skip(head.len() as int + 1) == tail,
    decreases head.len(),
{
    let text = head.push('/') + tail;
    if head.len() > 0 {
        assert(head[0] != '/') by {
            if head[0] == '/' {
                assert(head.contains('/'));
            }
        }
        assert(text[0] == head[0]);
        let rest = head.drop_first();
        assert(!rest.contains('/')) by {
            if rest.contains('/') {
                let i = choose|i: int| 0 <= i < rest.len() && rest[i] == '/';
                assert(head[i + 1] == '/');
            }
        }
        lemma_first_slash_splits(rest, tail);
        assert(text.drop_first() =~= rest.push('/') + tail);
    } else {
        assert(text[0] == '/');
    }
    assert(text.take(head.len() as int) =~= head);
    assert(text.skip(head.len() as int + 1) =~= tail);
}

/// A text without `/` has its first slash at its end.
pub proof fn lemma_first_slash_absent(text: Seq<char>)
    requires
        !text.contains('/'),
    ensures
        first_slash(text) == text.len(),
    decreases text.len(),
{
    if text.len() > 0 {
        assert(text[0] != '/') by {
            if text[0] == '/' {
                assert(text.contains('/'));
            }
        }
        let rest = text.drop_first();
        assert(!rest.contains('/')) by {
            if rest.contains('/') {
                let i = choose|i: int| 0 <= i < rest.len() && rest[i] == '/';
                assert(text[i + 1] == '/');
            }
        }
        lemma_first_slash_absent(rest);
    }
}

/// What the words of the path grammar are made of: their lengths, their
/// first characters, and that none holds a `/`.
pub proof fn lemma_words()
    ensures
        "dry_run_tx"@.len() == 10 && !"dry_run_tx"@.contains('/'),
        "epoch"@.len() == 5 && !"epoch"@.contains('/'),
        "results"@.len() == 7 && !"results"@.contains('/'),
        "value"@.len() == 5 && !"value"@.contains('/'),
        "prefix"@.len() == 6 && !"prefix"@.contains('/'),
        "has_key"@.len() == 7 && !"has_key"@.contains('/'),
        "conversion-prefix"@.len() == 17 && !"conversion-prefix"@.contains('/'),
        "value"@[0] == 'v',
        "prefix"@[0] == 'p',
        "has_key"@[0] == 'h',
        "conversion-prefix"@[0] == 'c',
{
    reveal_strlit("dry_run_tx");
    reveal_strlit("epoch");
    reveal_strlit("results");
    reveal_strlit("value");
    reveal_strlit("prefix");
    reveal_strlit("has_key");
    reveal_strlit("conversion-prefix");
}

impl Path {
    /// Writes the path as text.
    pub fn to_string(&self) -> (text: String)
        ensures
            text@ == format_path(self@),
    {
        match self {
            Path::DryRunTx => String::from_str("dry_run_tx"),
            Path::Epoch => String::from_str("epoch"),
            Path::Results => String::from_str("results"),
            Path::Value(storage_key) => {
                let text = String::from_str("value").concat("/").concat(storage_key.as_str());
                proof {
                    reveal_strlit("/");
                    assert(text@ =~= format_path(self@));
                }
                text
            },
            Path::Prefix(storage_key) => {
                let text = String::from_str("prefix").concat("/").concat(storage_key.as_str());
                proof {
                    reveal_strlit("/");
                    assert(text@ =~= format_path(self@));
                }
                text
            },
            Path::HasKey(storage_key) => {
                let text = String::from_str("has_key").concat("/").concat(storage_key.as_str());
                proof {
                    reveal_strlit("/");
                    assert(text@ =~= format_path(self@));
                }
                text
            },
            Path::Conversion(asset_type) => {
                let text = String::from_str("conversion-prefix").concat("/").concat(
                    asset_type.as_str(),
                );
                proof {
                    reveal_strlit("/");
                    assert(text@ =~= format_path(self@));
                }
                text
            },
        }
    }

    /// Reads a path from text. The payload of a path is taken as it stands:
    /// see [`Path::checked`].
    pub fn from_str(s: &str) -> (read: Result<Path, PathParseError>)
        ensures
            match read {
                Ok(path) => parse_path(s@) == Some(path@),
                Err(PathParseError::InvalidPath(text)) => parse_path(s@) is None && text@ == s@,
                Err(_) => false,
            },
    {
        if str_equal(s, "dry_run_tx") {
            return Ok(Path::DryRunTx);
        }
        if str_equal(s, "epoch") {
            return Ok(Path::Epoch);
        }
        if str_equal(s, "results") {
            return Ok(Path::Results);
        }
        match split_at_first(s, '/') {
            Some((head, tail)) => {
                proof {
                    lemma_first_slash_splits(head@, tail@);
                }
                if str_equal(head, "value") {
                    Ok(Path::Value(String::from_str(tail)))
                } else if str_equal(head, "prefix") {
                    Ok(Path::Prefix(String::from_str(tail)))
                } else if str_equal(head, "has_key") {
                    Ok(Path::HasKey(String::from_str(tail)))
                } else if str_equal(head, "conversion-prefix") {
                    Ok(Path::Conversion(String::from_str(tail)))
                } else {
                    Err(PathParseError::InvalidPath(String::from_str(s)))
                }
            },
            None => {
                proof {
                    lemma_first_slash_absent(s@);
                }
                Err(PathParseError::InvalidPath(String::from_str(s)))
            },
        }
    }

    /// What the path carries besides its shape.
    pub fn payload(&self) -> (carried: Payload<'_>)
        ensures
            match (self, carried) {
                (Path::Value(key), Payload::StorageKey(held))
                | (Path::Prefix(key), Payload::StorageKey(held))
                | (Path::HasKey(key), Payload::StorageKey(held)) => held == key,
                (Path::Conversion(asset), Payload::AssetType(held)) => held == asset,
                (Path::DryRunTx, Payload::Bare)
                | (Path::Epoch, Payload::Bare)
                | (Path::Results, Payload::Bare) => true,
                _ => false,
            },
    {
        match self {
            Path::Value(key) | Path::Prefix(key) | Path::HasKey(key) => Payload::StorageKey(key),
            Path::Conversion(asset) => Payload::AssetType(asset),
            Path::DryRunTx | Path::Epoch | Path::Results => Payload::Bare,
        }
    }

    /// Settles a path that was read from text by what was said of its
    /// payload: `verdict` is `Ok` where the storage layer took the key, or the
    /// asset registry the asset type, and else holds what it said. A bare
    /// path has no payload and stands whatever the verdict.
    pub fn checked(self, verdict: Result<(), String>) -> (settled: Result<Path, PathParseError>)
        ensures
            match (self@, verdict) {
                (PathView::Value(_), Err(said))
                | (PathView::Prefix(_), Err(said))
                | (PathView::HasKey(_), Err(said)) => settled matches Err(e) && e@
                    == PathParseErrorView::InvalidStorageKey(said@),
                (PathView::Conversion(_), Err(said)) => settled matches Err(e) && e@
                    == PathParseErrorView::InvalidAssetType(said@),
                _ => settled == Ok::<Path, PathParseError>(self),
            },
    {
        match verdict {
            Ok(()) => Ok(self),
            Err(said) => match self {
                Path::Value(_) | Path::Prefix(_) | Path::HasKey(_) => Err(
                    PathParseError::InvalidStorageKey(said),
                ),
                Path::Conversion(_) => Err(PathParseError::InvalidAssetType(said)),
                _ => Ok(self),
            },
        }
    }
}

/// A text that is read as a path is what that path is written as.
pub proof fn lemma_parse_then_format(text: Seq<char>)
    requires
        parse_path(text) is Some,
    ensures
        format_path(parse_path(text)->0) == text,
{
    if text != "dry_run_tx"@ && text != "epoch"@ && text != "results"@ {
        let at = first_slash(text);
        lemma_first_slash_in_range(text);
        assert(text =~= text.take(at).push('/') + text.skip(at + 1));
    }
}

/// The first slash lies within the text and is one where it is not the end.
pub proof fn lemma_first_slash_in_range(text: Seq<char>)
    ensures
        0 <= first_slash(text) <= text.len(),
        first_slash(text) < text.len() ==> text[first_slash(text)] == '/',
    decreases text.len(),
{
    if text.len() > 0 && text[0] != '/' {
        lemma_first_slash_in_range(text.drop_first());
    }
}

/// A path that is written as text is read from it again.
pub proof fn lemma_format_then_parse(path: PathView)
    ensures
        parse_path(format_path(path)) == Some(path),
{
    lemma_words();
    match path {
        PathView::DryRunTx => {},
        PathView::Epoch => {
            assert("epoch"@ != "dry_run_tx"@);
        },
        PathView::Results => {
            assert("results"@ != "dry_run_tx"@);
            assert("results"@ != "epoch"@);
        },
        PathView::Value(key) => {
            lemma_payload_path("value"@, key);
        },
        PathView::Prefix(key) => {
            lemma_payload_path("prefix"@, key);
            assert("prefix"@ != "value"@);
        },
        PathView::HasKey(key) => {
            lemma_payload_path("has_key"@, key);
            assert("has_key"@ != "value"@);
            assert("has_key"@ != "prefix"@);
        },
        PathView::Conversion(asset) => {
            lemma_payload_path("conversion-prefix"@, asset);
            assert("conversion-prefix"@ != "value"@);
            assert("conversion-prefix"@ != "prefix"@);
            assert("conversion-prefix"@ != "has_key"@);
        },
    }
}

/// A prefix, a `/` and a payload is none of the bare words, and splits into
/// the prefix and the payload again.
proof fn lemma_payload_path(head: Seq<char>, tail: Seq<char>)
    requires
        !head.contains('/'),
    ensures
        head.push('/') + tail != "dry_run_tx"@,
        head.push('/') + tail != "epoch"@,
        head.push('/') + tail != "results"@,
        first_slash(head.push('/') + tail) == head.len(),
        first_slash(head.push('/') + tail) < (head.push('/') + tail).len(),
        (head.push('/') + tail).take(head.len() as int) == head,
        (head.push('/') + tail).skip(head.len() as int + 1) == tail,
{
    lemma_words();
    lemma_first_slash_splits(head, tail);
    let text = head.push('/') + tail;
    assert(text[head.len() as int] == '/');
    assert(text.contains('/'));
}

} // verus!
