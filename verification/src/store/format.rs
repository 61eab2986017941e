//! The format of a data directory: its version marker, what can be wrong when it is opened, and
//! which kind of record is stored where.

use crate::error::{Error, ErrorView};
use crate::store::keys;
use crate::store::kv;
use crate::text;
use vstd::prelude::*;
use vstd::string::*;
use vstd::utf8::encode_utf8;

verus! {

/// The version that this library writes, and the newest that it reads.
pub const FORMAT_VERSION: u32 = 1;

/// The keyspace of the version marker.
pub const FORMAT_VERSION_KEYSPACE: &'static str = "meta";

/// The key of the version marker.
pub const FORMAT_VERSION_KEY: &'static str = "__open_pubusb_format_version";

/// Why a data directory could not be opened.
#[derive(Debug)]
pub enum OpenError {
    /// The storage engine failed.
    Storage {
        /// The data directory.
        path: String,
        /// What the storage engine said.
        source: String,
    },
    /// The directory was written by a newer version.
    UnsupportedFormatVersion {
        /// The data directory.
        path: String,
        /// The version that it has.
        found: u32,
        /// The newest version that can be read.
        supported: u32,
    },
    /// The version marker is not one.
    CorruptFormatVersionMarker {
        /// The data directory.
        path: String,
    },
}

/// What an [`OpenError`] holds.
pub enum OpenErrorView {
    Storage { path: Seq<char>, source: Seq<char> },
    UnsupportedFormatVersion { path: Seq<char>, found: u32, supported: u32 },
    CorruptFormatVersionMarker { path: Seq<char> },
}

impl View for OpenError {
    type V = OpenErrorView;

    open spec fn view(&self) -> OpenErrorView {
        match *self {
            OpenError::Storage { path, source } => OpenErrorView::Storage {
                path: path@,
                source: source@,
            },
            OpenError::UnsupportedFormatVersion { path, found, supported } =>
                OpenErrorView::UnsupportedFormatVersion { path: path@, found, supported },
            OpenError::CorruptFormatVersionMarker { path } =>
                OpenErrorView::CorruptFormatVersionMarker { path: path@ },
        }
    }
}

/// The text for the operator.
pub open spec fn open_error_text(e: OpenErrorView) -> Seq<char> {
    match e {
        OpenErrorView::Storage { path, source } => "failed to open open-pubusb data directory "@
            + path + ": "@ + source,
        OpenErrorView::UnsupportedFormatVersion { path, found, supported } =>
            "open-pubusb data directory "@ + path + " was written with format version "@
                + text::dec(found as nat) + ", but this binary only supports up to "@ + (
            text::dec(supported as nat)
                + "; upgrade open-pubusb, or point storage.data_dir at an empty directory"@),
        OpenErrorView::CorruptFormatVersionMarker { path } => "open-pubusb data directory "@ + path
            + " has a corrupt format-version marker"@,
    }
}

impl OpenError {
    /// The text for the operator.
    pub fn to_string(&self) -> (s: String)
        ensures
            s@ == open_error_text(self@),
    {
        match self {
            OpenError::Storage { path, source } => text::cat4(
                "failed to open open-pubusb data directory ",
                path.as_str(),
                ": ",
                source.as_str(),
            ),
            OpenError::UnsupportedFormatVersion { path, found, supported } => {
                let found = text::u64_text(*found as u64);
                let supported = text::u64_text(*supported as u64);
                let advice = text::cat2(
                    supported.as_str(),
                    "; upgrade open-pubusb, or point storage.data_dir at an empty directory",
                );
                let start = text::cat5(
                    "open-pubusb data directory ",
                    path.as_str(),
                    " was written with format version ",
                    found.as_str(),
                    ", but this binary only supports up to ",
                );
                text::cat2(start.as_str(), advice.as_str())
            },
            OpenError::CorruptFormatVersionMarker { path } => text::cat3(
                "open-pubusb data directory ",
                path.as_str(),
                " has a corrupt format-version marker",
            ),
        }
    }
}

/// The marker of a version: four bytes, most significant first.
pub open spec fn marker(version: u32) -> Seq<u8> {
    keys::be_bytes(version as nat, 4)
}

/// What is wrong with the marker that a directory has. A directory without one is new.
pub open spec fn marker_error(path: Seq<char>, found: Option<Seq<u8>>) -> Option<OpenErrorView> {
    match found {
        Some(bytes) => if bytes.len() != 4 {
            Some(OpenErrorView::CorruptFormatVersionMarker { path })
        } else if keys::be_value(bytes) > FORMAT_VERSION {
            Some(
                OpenErrorView::UnsupportedFormatVersion {
                    path,
                    found: keys::be_value(bytes) as u32,
                    supported: FORMAT_VERSION,
                },
            )
        } else {
            None
        },
        None => None,
    }
}

proof fn lemma_pow256_4()
    ensures
        keys::pow256(4) == 0x1_0000_0000,
{
    reveal_with_fuel(keys::pow256, 5);
}

fn read_be32(bytes: &[u8]) -> (n: u32)
    requires
        bytes@.len() == 4,
    ensures
        n == keys::be_value(bytes@),
{
    let total: usize = bytes.len();
    let mut n: u32 = 0;
    let mut i: usize = 0;
    assert(bytes@.take(0) =~= Seq::<u8>::empty());
    while i < 4
        invariant
            i <= 4,
            total == bytes@.len(),
            total == 4,
            n == keys::be_value(bytes@.take(i as int)),
        decreases 4 - i,
    {
        proof {
            let next = bytes@.take(i + 1);
            assert(next.drop_last() =~= bytes@.take(i as int));
            keys::lemma_be_value_bound(next);
            reveal_with_fuel(keys::pow256, 5);
        }
        n = n * 256 + bytes[i] as u32;
        i = i + 1;
    }
    assert(bytes@.take(4) =~= bytes@);
    n
}

/// Checks the marker that a data directory has. Returns the marker to write where there is none.
/// An older version is read like the current one.
pub fn check_format_version(path: &str, found: Option<&[u8]>) -> (r: Result<
    Option<Vec<u8>>,
    OpenError,
>)
    ensures
        match found {
            Some(bytes) => match marker_error(path@, Some(bytes@)) {
                Some(e) => r is Err && r->Err_0@ == e,
                None => r matches Ok(None),
            },
            None => r matches Ok(Some(bytes)) && bytes@ == marker(FORMAT_VERSION),
        },
{
    match found {
        Some(bytes) => {
            if bytes.len() != 4 {
                return Err(OpenError::CorruptFormatVersionMarker { path: String::from_str(path) });
            }
            let version: u32 = read_be32(bytes);
            if version > FORMAT_VERSION {
                return Err(
                    OpenError::UnsupportedFormatVersion {
                        path: String::from_str(path),
                        found: version,
                        supported: FORMAT_VERSION,
                    },
                );
            }
            Ok(None)
        },
        None => {
            let bytes: Vec<u8> = vec![0, 0, 0, 1];
            proof {
                reveal_with_fuel(keys::be_bytes, 5);
                assert(bytes@ =~= marker(1));
            }
            Ok(Some(bytes))
        },
    }
}

/// A directory opens exactly when it is new or its version is not newer than the current one; what
/// is written into a new one opens again.
pub proof fn law_markers(path: Seq<char>, version: u32)
    ensures
        marker_error(path, None) is None,
        marker_error(path, Some(marker(FORMAT_VERSION))) is None,
        version <= FORMAT_VERSION ==> marker_error(path, Some(marker(version))) is None,
        version > FORMAT_VERSION ==> marker_error(path, Some(marker(version))) == Some(
            OpenErrorView::UnsupportedFormatVersion {
                path,
                found: version,
                supported: FORMAT_VERSION,
            },
        ),
{
    lemma_pow256_4();
    keys::lemma_be_bytes_len(version as nat, 4);
    keys::lemma_be_value_of_bytes(version as nat, 4);
    keys::lemma_be_bytes_len(1, 4);
    keys::lemma_be_value_of_bytes(1, 4);
}

/// The error for a failure of the storage engine: a full disk is told apart.
pub open spec fn storage_error_view(disk_full: bool, message: Seq<char>) -> ErrorView {
    if disk_full {
        ErrorView::ResourceExhausted { message: "storage engine reported ENOSPC: "@ + message }
    } else {
        ErrorView::Internal { message: "storage engine error: "@ + message }
    }
}

/// The error for a failure of the storage engine: a full disk is told apart.
pub fn storage_error(disk_full: bool, message: &str) -> (e: Error)
    ensures
        e@ == storage_error_view(disk_full, message@),
{
    if disk_full {
        Error::ResourceExhausted {
            message: text::cat2("storage engine reported ENOSPC: ", message),
        }
    } else {
        Error::Internal { message: text::cat2("storage engine error: ", message) }
    }
}

/// The kinds of values.
#[derive(Debug, Clone, Copy, PartialEq, Eq, Structural)]
pub enum ValueKind {
    /// Plain bytes.
    Bytes,
    /// A topic.
    Topic,
    /// A subscription.
    Subscription,
    /// A snapshot.
    Snapshot,
    /// A message.
    Message,
    /// A cursor.
    Cursor,
    /// A delivery.
    Delivery,
    /// An ordering lane.
    Lane,
}

/// The kind of value that is stored under a key.
pub open spec fn kind_at(keyspace: Seq<char>, key: Seq<u8>) -> ValueKind {
    if keyspace == "meta"@ {
        if key.len() == 10 && text::has_prefix(key, encode_utf8("t/"@)) {
            ValueKind::Topic
        } else if key.len() == 10 && text::has_prefix(key, encode_utf8("s/"@)) {
            ValueKind::Subscription
        } else if key.len() == 13 && text::has_prefix(key, encode_utf8("snap/"@)) {
            ValueKind::Snapshot
        } else {
            ValueKind::Bytes
        }
    } else if keyspace == "msg"@ {
        ValueKind::Message
    } else if keyspace == "sub"@ || keyspace == "snap"@ {
        ValueKind::Cursor
    } else if keyspace == "dlv"@ {
        ValueKind::Delivery
    } else if keyspace == "okey"@ {
        ValueKind::Lane
    } else {
        ValueKind::Bytes
    }
}

/// The kind of value that is stored under a key.
pub fn value_kind(keyspace: &str, key: &[u8]) -> (r: ValueKind)
    ensures
        r == kind_at(keyspace@, key@),
{
    if text::str_equal(keyspace, "meta") {
        if key.len() == 10 && text::bytes_have_prefix(key, "t/".as_bytes()) {
            ValueKind::Topic
        } else if key.len() == 10 && text::bytes_have_prefix(key, "s/".as_bytes()) {
            ValueKind::Subscription
        } else if key.len() == 13 && text::bytes_have_prefix(key, "snap/".as_bytes()) {
            ValueKind::Snapshot
        } else {
            ValueKind::Bytes
        }
    } else if text::str_equal(keyspace, "msg") {
        ValueKind::Message
    } else if text::str_equal(keyspace, "sub") || text::str_equal(keyspace, "snap") {
        ValueKind::Cursor
    } else if text::str_equal(keyspace, "dlv") {
        ValueKind::Delivery
    } else if text::str_equal(keyspace, "okey") {
        ValueKind::Lane
    } else {
        ValueKind::Bytes
    }
}

/// The kinds of the values under the keys in `meta`, and that the other keyspaces hold values of
/// one kind each.
pub proof fn law_kinds_at_keys(
    id: u64,
    name_kind: keys::NameKind,
    name: Seq<char>,
    key: Seq<u8>,
)
    ensures
        kind_at("meta"@, keys::topic_key_bytes(id)) == ValueKind::Topic,
        kind_at("meta"@, keys::sub_key_bytes(id)) == ValueKind::Subscription,
        kind_at("meta"@, keys::snapshot_key_bytes(id)) == ValueKind::Snapshot,
        kind_at("meta"@, keys::topic_seq_counter_key_bytes(id)) == ValueKind::Bytes,
        kind_at("meta"@, keys::id_seq_key_bytes()) == ValueKind::Bytes,
        kind_at("meta"@, keys::lease_seq_key_bytes()) == ValueKind::Bytes,
        kind_at("meta"@, keys::name_key_bytes(name_kind, name)) == ValueKind::Bytes,
        kind_at("msg"@, key) == ValueKind::Message,
        kind_at("sub"@, key) == ValueKind::Cursor,
        kind_at("snap"@, key) == ValueKind::Cursor,
        kind_at("dlv"@, key) == ValueKind::Delivery,
        kind_at("okey"@, key) == ValueKind::Lane,
        kind_at("idx"@, key) == ValueKind::Bytes,
{
    kv::law_keyspaces_differ();
    keys::lemma_prefix_bytes();
    keys::lemma_be_bytes_len(id as nat, 8);
    assert(keys::topic_key_bytes(id).take(2) =~= encode_utf8("t/"@));
    assert(keys::sub_key_bytes(id).take(2) =~= encode_utf8("s/"@));
    assert(keys::snapshot_key_bytes(id).take(5) =~= encode_utf8("snap/"@));
    assert(keys::sub_key_bytes(id)[0] == 115);
    assert(keys::sub_key_bytes(id).take(2)[0] == 115);
    let named = keys::name_key_bytes(name_kind, name);
    assert(named[0] == 110);
    if named.len() == 10 {
        assert(named.take(2)[0] == 110);
    }
    if named.len() == 13 {
        assert(named.take(5)[0] == 110);
    }
}

} // verus!
