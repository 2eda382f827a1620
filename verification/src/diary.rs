//! Encrypted persistence of the journal document, with a closed error
//! taxonomy.
//!
//! A [`Diary`] is the decrypted logical content: a mapping from calendar
//! days to entry texts with unique keys. Saving serializes the document to
//! the payload form of [`crate::codec`], encrypts it with cocoon under the
//! session credential, and yields the container bytes; loading reverses
//! that. Reading and writing the container *file* is left to the embedding
//! program, which passes bytes in and out; the read outcome is classified
//! here so that every failure maps to exactly one [`DiaryError`].

use vstd::prelude::*;

use crate::codec;
use crate::codec::view_pairs;
use crate::date::Date;
use crate::text::string_from_utf8;
use vstd::string::StrSliceExecFns;

verus! {

/// The closed error taxonomy of the persistence layer. No other failure
/// category escapes this boundary.
#[derive(Debug, Clone, PartialEq, Eq, Structural)]
pub enum DiaryError {
    /// The container is recognized but authenticated decryption failed:
    /// a wrong credential or corrupted ciphertext, indistinguishably.
    WrongPassword,
    /// The container header, or the decrypted payload, is not in the
    /// expected format.
    InvalidFormat,
    /// The file exceeds the fixed size bound; rejected before decryption.
    OutOfRangeSize,
    /// No file exists at the given path.
    NotFound,
    /// The file exists but could not be read or written.
    NotAccessible,
}

/// The short human-readable description of each error.
pub open spec fn error_message(e: DiaryError) -> Seq<char> {
    match e {
        DiaryError::InvalidFormat => "Invalid File Format"@,
        DiaryError::NotAccessible => "Cannot Access File"@,
        DiaryError::NotFound => "File does not exist"@,
        DiaryError::WrongPassword => "Wrong Password"@,
        DiaryError::OutOfRangeSize => "File has invalid size"@,
    }
}

impl DiaryError {
    /// A short human-readable description of the error.
    pub fn message(&self) -> (r: &'static str)
        ensures
            r@ == error_message(*self),
    {
        match self {
            DiaryError::InvalidFormat => "Invalid File Format",
            DiaryError::NotAccessible => "Cannot Access File",
            DiaryError::NotFound => "File does not exist",
            DiaryError::WrongPassword => "Wrong Password",
            DiaryError::OutOfRangeSize => "File has invalid size",
        }
    }
}

/// How reading the container file from disk failed, as the embedding
/// program reports it.
#[derive(Debug, Clone, Copy, PartialEq, Eq, Structural)]
pub enum FileError {
    /// The file does not exist.
    NotFound,
    /// Any other read failure: permissions, device errors.
    Other,
}

/// Containers above this size are rejected before any decryption work.
pub const MAX_CONTAINER_SIZE: usize = 16 * 1024 * 1024;

/// Size of cocoon's container prefix: a 44-byte header plus a 16-byte
/// authentication tag.
pub const CONTAINER_PREFIX_SIZE: usize = 60;

/// What a container decrypts to under a credential. Cocoon's authenticated
/// decryption reads the salt and nonce from the container itself, so its
/// outcome is a function of the container bytes and the password alone.
pub uninterp spec fn opens_to(container: Seq<u8>, password: Seq<char>) -> Option<Seq<u8>>;

/// Whether cocoon recognizes the container prefix: magic number, version,
/// known cipher and KDF settings, and a declared length that is
/// representable and fits within the container. Independent of any
/// credential.
pub uninterp spec fn header_ok(container: Seq<u8>) -> bool;

/// Relies on cocoon's `Cocoon::new` and `Cocoon::wrap`: authenticated
/// encryption of `data` under `password` with a fresh random salt and
/// nonce. Every container it produces carries a well-formed header that
/// declares the data's true length, is exactly [`CONTAINER_PREFIX_SIZE`]
/// bytes longer than the data, and decrypts back to `data` under the same
/// password. Encryption itself fails only when the cipher rejects the
/// message length, far beyond [`MAX_CONTAINER_SIZE`], so success is owed
/// for any data within that bound.
#[verifier::external_body]
fn seal(data: &Vec<u8>, password: &str) -> (r: Result<Vec<u8>, DiaryError>)
    ensures
        r matches Ok(c) ==> opens_to(c@, password@) == Some(data@) && header_ok(c@)
            && declared_fits(c@) && c@.len() == data@.len() + CONTAINER_PREFIX_SIZE,
        data@.len() <= MAX_CONTAINER_SIZE ==> r is Ok,
{
    let mut cocoon = cocoon::Cocoon::new(password.as_bytes());
    match cocoon.wrap(data.as_slice()) {
        Ok(c) => Ok(c),
        Err(cocoon::Error::Cryptography) => Err(DiaryError::WrongPassword),
        Err(cocoon::Error::TooLarge) => Err(DiaryError::OutOfRangeSize),
        Err(cocoon::Error::UnrecognizedFormat) => Err(DiaryError::InvalidFormat),
        Err(cocoon::Error::TooShort) => Err(DiaryError::InvalidFormat),
        Err(cocoon::Error::Io(_)) => Err(DiaryError::NotAccessible),
    }
}

/// The payload length a container's prefix declares: the eight bytes after
/// the magic number, version, options, salt and nonce, big-endian.
pub open spec fn declared_len(c: Seq<u8>) -> int {
    c[36] * 0x100000000000000 + c[37] * 0x1000000000000 + c[38] * 0x10000000000 + c[39]
        * 0x100000000 + c[40] * 0x1000000 + c[41] * 0x10000 + c[42] * 0x100 + c[43]
}

/// Whether the container holds its prefix and the whole payload its prefix
/// declares. cocoon's decryption adds the declared length to the prefix
/// size unchecked and allocates a buffer of that length, so a container
/// that declares more than it holds must be rejected before decryption is
/// attempted: it is a truncated container.
pub open spec fn declared_fits(c: Seq<u8>) -> bool {
    c.len() >= CONTAINER_PREFIX_SIZE && declared_len(c) + CONTAINER_PREFIX_SIZE <= c.len()
}

/// Executable twin of [`declared_fits`].
pub(crate) fn container_well_sized(c: &Vec<u8>) -> (r: bool)
    ensures
        r == declared_fits(c@),
{
    if c.len() < CONTAINER_PREFIX_SIZE {
        return false;
    }
    let declared: u128 = (c[36] as u128) * 0x100000000000000 + (c[37] as u128) * 0x1000000000000
        + (c[38] as u128) * 0x10000000000 + (c[39] as u128) * 0x100000000 + (c[40] as u128)
        * 0x1000000 + (c[41] as u128) * 0x10000 + (c[42] as u128) * 0x100 + (c[43] as u128);
    declared + (CONTAINER_PREFIX_SIZE as u128) <= (c.len() as u128)
}

/// Relies on cocoon's `Cocoon::new` and `Cocoon::unwrap`: authenticated
/// decryption. On a byte slice whose prefix and declared payload fit — the
/// precondition; `unwrap` itself takes the declared length on faith and
/// would abort on a container that lies about it — `unwrap` fails with
/// exactly two kinds of error: a prefix-level rejection (unrecognized
/// prefix, or a declared length beyond the platform; here `InvalidFormat`)
/// or an authentication failure (here `WrongPassword`).
#[verifier::external_body]
pub(crate) fn unseal(container: &Vec<u8>, password: &str) -> (r: Result<Vec<u8>, DiaryError>)
    requires
        declared_fits(container@),
    ensures
        r matches Ok(d) ==> opens_to(container@, password@) == Some(d@) && header_ok(container@),
        r matches Err(e) ==> opens_to(container@, password@) is None && (e
            == DiaryError::InvalidFormat <==> !header_ok(container@)) && (e
            == DiaryError::WrongPassword <==> header_ok(container@)),
{
    let cocoon = cocoon::Cocoon::new(password.as_bytes());
    match cocoon.unwrap(container.as_slice()) {
        Ok(d) => Ok(d),
        Err(cocoon::Error::UnrecognizedFormat) => Err(DiaryError::InvalidFormat),
        Err(cocoon::Error::TooShort) => Err(DiaryError::InvalidFormat),
        Err(cocoon::Error::Cryptography) => Err(DiaryError::WrongPassword),
        Err(cocoon::Error::TooLarge) => Err(DiaryError::InvalidFormat),
        Err(cocoon::Error::Io(_)) => Err(DiaryError::NotAccessible),
    }
}

/// The document as a mapping, built from the pairs in order: a later pair
/// with the same key overrides an earlier one.
pub open spec fn to_map(es: Seq<(Date, Seq<char>)>) -> Map<Date, Seq<char>>
    decreases es.len(),
{
    if es.len() == 0 {
        Map::empty()
    } else {
        to_map(es.drop_last()).insert(es.last().0, es.last().1)
    }
}

/// No two pairs share a key.
pub open spec fn unique_keys(es: Seq<(Date, Seq<char>)>) -> bool {
    forall|i: int, j: int| 0 <= i < j < es.len() ==> (#[trigger] es[i]).0 != (#[trigger] es[j]).0
}

/// A key is in the mapping exactly when some pair carries it.
pub proof fn lemma_to_map_contains(es: Seq<(Date, Seq<char>)>, d: Date)
    ensures
        to_map(es).contains_key(d) <==> exists|i: int| 0 <= i < es.len() && (#[trigger] es[i]).0
            == d,
    decreases es.len(),
{
    if es.len() > 0 {
        lemma_to_map_contains(es.drop_last(), d);
        if to_map(es).contains_key(d) {
            if es.last().0 == d {
                assert(es[es.len() - 1].0 == d);
            } else {
                let i = choose|i: int| 0 <= i < es.drop_last().len() && (#[trigger] es.drop_last()[
                    i]).0 == d;
                assert(es[i].0 == d);
            }
        }
        if exists|i: int| 0 <= i < es.len() && (#[trigger] es[i]).0 == d {
            let i = choose|i: int| 0 <= i < es.len() && (#[trigger] es[i]).0 == d;
            if i < es.len() - 1 {
                assert(es.drop_last()[i].0 == d);
            }
        }
    }
}

/// Under unique keys, each pair's value is the mapping's value at its key.
pub proof fn lemma_to_map_get(es: Seq<(Date, Seq<char>)>, i: int)
    requires
        unique_keys(es),
        0 <= i < es.len(),
    ensures
        to_map(es).contains_key(es[i].0),
        to_map(es)[es[i].0] == es[i].1,
    decreases es.len(),
{
    if i == es.len() - 1 {
    } else {
        assert(forall|a: int, b: int|
            0 <= a < b < es.drop_last().len() ==> (#[trigger] es.drop_last()[a]).0 != (
            #[trigger] es.drop_last()[b]).0);
        lemma_to_map_get(es.drop_last(), i);
        assert(es[i].0 != es.last().0);
    }
}

/// Under unique keys, removing a pair removes its key from the mapping.
pub proof fn lemma_to_map_remove(es: Seq<(Date, Seq<char>)>, i: int)
    requires
        unique_keys(es),
        0 <= i < es.len(),
    ensures
        to_map(es.remove(i)) == to_map(es).remove(es[i].0),
    decreases es.len(),
{
    es.remove_ensures(i);
    if i == es.len() - 1 {
        assert(es.remove(i) =~= es.drop_last());
        lemma_to_map_contains(es.drop_last(), es[i].0);
        assert(forall|a: int|
            0 <= a < es.drop_last().len() ==> (#[trigger] es.drop_last()[a]).0 == es[a].0);
        assert(!to_map(es.drop_last()).contains_key(es[i].0));
        assert(to_map(es.remove(i)) =~= to_map(es).remove(es[i].0));
    } else {
        let es1 = es.drop_last();
        assert(forall|a: int, b: int|
            0 <= a < b < es1.len() ==> (#[trigger] es1[a]).0 != (#[trigger] es1[b]).0);
        lemma_to_map_remove(es1, i);
        es1.remove_ensures(i);
        assert(es.remove(i).drop_last() =~= es1.remove(i));
        assert(es.remove(i).last() == es.last());
        assert(es[i].0 != es.last().0);
        assert(to_map(es.remove(i)) =~= to_map(es).remove(es[i].0));
    }
}

/// The decrypted logical content: entry texts keyed by unique calendar
/// days.
#[derive(Debug)]
pub struct Diary {
    pub entries: Vec<(Date, String)>,
}

impl View for Diary {
    type V = Map<Date, Seq<char>>;

    open spec fn view(&self) -> Map<Date, Seq<char>> {
        to_map(view_pairs(self.entries@))
    }
}

impl Default for Diary {
    fn default() -> (r: Diary)
        ensures
            r.wf(),
            r@ == Map::<Date, Seq<char>>::empty(),
    {
        Diary::new()
    }
}

impl Diary {
    /// Every key is a well-formed date and no key repeats.
    pub open spec fn wf(self) -> bool {
        &&& forall|i: int|
            0 <= i < self.entries@.len() ==> (#[trigger] self.entries@[i]).0.wf()
        &&& unique_keys(view_pairs(self.entries@))
    }

    /// The empty document.
    pub fn new() -> (r: Diary)
        ensures
            r.wf(),
            r@ == Map::<Date, Seq<char>>::empty(),
    {
        let d = Diary { entries: Vec::new() };
        proof {
            assert(view_pairs(d.entries@) =~= Seq::<(Date, Seq<char>)>::empty());
        }
        d
    }

    /// Position of the entry for `d`, if any.
    fn index_of(&self, d: Date) -> (r: Option<usize>)
        ensures
            r matches Some(i) ==> i < self.entries@.len() && self.entries@[i as int].0 == d,
            r is None ==> forall|j: int|
                0 <= j < self.entries@.len() ==> (#[trigger] self.entries@[j]).0 != d,
    {
        let n = self.entries.len();
        let mut i: usize = 0;
        while i < n
            invariant
                i <= n,
                n == self.entries@.len(),
                forall|j: int| 0 <= j < i ==> (#[trigger] self.entries@[j]).0 != d,
            decreases n - i,
        {
            if self.entries[i].0 == d {
                return Some(i);
            }
            i += 1;
        }
        None
    }

    /// Whether an entry exists for `d`.
    pub fn contains(&self, d: Date) -> (r: bool)
        requires
            self.wf(),
        ensures
            r == self@.contains_key(d),
    {
        let r = self.index_of(d);
        proof {
            lemma_to_map_contains(view_pairs(self.entries@), d);
            match r {
                Some(i) => {
                    assert(view_pairs(self.entries@)[i as int].0 == d);
                },
                None => {},
            }
        }
        r.is_some()
    }

    /// The entry text for `d`, if any.
    pub fn get(&self, d: Date) -> (r: Option<&String>)
        requires
            self.wf(),
        ensures
            r matches Some(t) ==> self@.contains_key(d) && t@ == self@[d],
            r is None ==> !self@.contains_key(d),
    {
        proof {
            lemma_to_map_contains(view_pairs(self.entries@), d);
        }
        match self.index_of(d) {
            Some(i) => {
                proof {
                    assert(view_pairs(self.entries@)[i as int].0 == d);
                    lemma_to_map_get(view_pairs(self.entries@), i as int);
                }
                Some(&self.entries[i].1)
            },
            None => None,
        }
    }

    /// Stores `text` under `d`, replacing any existing entry.
    pub fn set(&mut self, d: Date, text: String)
        requires
            old(self).wf(),
            d.wf(),
        ensures
            final(self).wf(),
            final(self)@ == old(self)@.insert(d, text@),
    {
        let ghost vp0 = view_pairs(self.entries@);
        match self.index_of(d) {
            Some(i) => {
                proof {
                    assert(vp0[i as int].0 == d);
                    lemma_to_map_remove(vp0, i as int);
                    vp0.remove_ensures(i as int);
                }
                self.entries.remove(i);
                proof {
                    assert(view_pairs(self.entries@) =~= vp0.remove(i as int));
                }
                self.entries.push((d, text));
                proof {
                    let vpr = vp0.remove(i as int);
                    let vp1 = view_pairs(self.entries@);
                    assert(vp1 =~= vpr.push((d, text@)));
                    assert(vp1.drop_last() =~= vpr);
                    assert(to_map(vp1) == to_map(vpr).insert(d, text@));
                    assert(to_map(vp1) =~= to_map(vp0).insert(d, text@));
                    assert(forall|a: int| 0 <= a < vpr.len() ==> (#[trigger] vpr[a]).0 != d);
                    assert(forall|a: int, b: int|
                        0 <= a < b < vpr.len() ==> (#[trigger] vpr[a]).0 != (#[trigger] vpr[b]).0);
                    assert(unique_keys(vp1)) by {
                        assert(forall|a: int| 0 <= a < vp1.len() - 1 ==> vp1[a] == vpr[a]);
                    }
                    assert(forall|a: int|
                        0 <= a < self.entries@.len() ==> (#[trigger] self.entries@[a]).0 == vp1[
                        a].0);
                    assert(forall|a: int| 0 <= a < vpr.len() ==> (#[trigger] vpr[a]).0.wf());
                }
            },
            None => {
                self.entries.push((d, text));
                proof {
                    let vp1 = view_pairs(self.entries@);
                    assert(vp1.drop_last() =~= vp0);
                    assert(to_map(vp1) == to_map(vp0).insert(d, text@));
                    assert(forall|a: int| 0 <= a < vp0.len() ==> (#[trigger] vp0[a]).0 != d);
                    assert(unique_keys(vp1)) by {
                        assert(forall|a: int| 0 <= a < vp1.len() - 1 ==> vp1[a] == vp0[a]);
                    }
                    assert(forall|a: int|
                        0 <= a < self.entries@.len() ==> (#[trigger] self.entries@[a]).0 == vp1[
                        a].0);
                }
            },
        }
    }

    /// Removes the entry for `d`, if any.
    pub fn remove(&mut self, d: Date)
        requires
            old(self).wf(),
        ensures
            final(self).wf(),
            final(self)@ == old(self)@.remove(d),
    {
        let ghost vp0 = view_pairs(self.entries@);
        match self.index_of(d) {
            Some(i) => {
                proof {
                    assert(vp0[i as int].0 == d);
                    lemma_to_map_remove(vp0, i as int);
                    vp0.remove_ensures(i as int);
                }
                self.entries.remove(i);
                proof {
                    assert(view_pairs(self.entries@) =~= vp0.remove(i as int));
                }
            },
            None => {
                proof {
                    lemma_to_map_contains(vp0, d);
                    assert(forall|a: int| 0 <= a < vp0.len() ==> (#[trigger] vp0[a]).0 != d);
                    assert(!old(self)@.contains_key(d));
                    assert(self@ =~= old(self)@.remove(d));
                }
            },
        }
    }

    /// What loading container bytes under a password yields: the size bound,
    /// then the check that the container holds what its prefix declares,
    /// then cocoon's decryption, then the payload reading, each failure
    /// mapped to its error.
    pub open spec fn load_spec(c: Seq<u8>, p: Seq<char>) -> Result<Map<Date, Seq<char>>, DiaryError> {
        if c.len() > MAX_CONTAINER_SIZE {
            Err(DiaryError::OutOfRangeSize)
        } else if !declared_fits(c) {
            Err(DiaryError::InvalidFormat)
        } else {
            match opens_to(c, p) {
                Some(pt) => {
                    if vstd::utf8::valid_utf8(pt) {
                        match codec::parse_payload_spec(vstd::utf8::decode_utf8(pt)) {
                            Some(es) => Ok(to_map(es)),
                            None => Err(DiaryError::InvalidFormat),
                        }
                    } else {
                        Err(DiaryError::InvalidFormat)
                    }
                },
                None => {
                    if header_ok(c) {
                        Err(DiaryError::WrongPassword)
                    } else {
                        Err(DiaryError::InvalidFormat)
                    }
                },
            }
        }
    }

    /// Decrypts and reads a whole container image.
    pub fn load_bytes(bytes: &Vec<u8>, password: &str) -> (r: Result<Diary, DiaryError>)
        ensures
            r matches Ok(d) ==> d.wf() && Self::load_spec(bytes@, password@) == Ok::<
                Map<Date, Seq<char>>,
                DiaryError,
            >(d@),
            r matches Err(e) ==> Self::load_spec(bytes@, password@) == Err::<
                Map<Date, Seq<char>>,
                DiaryError,
            >(e),
            bytes@.len() <= MAX_CONTAINER_SIZE && !declared_fits(bytes@) ==> r == Err::<
                Diary,
                DiaryError,
            >(DiaryError::InvalidFormat),
            bytes@.len() < CONTAINER_PREFIX_SIZE ==> r == Err::<Diary, DiaryError>(
                DiaryError::InvalidFormat,
            ),
    {
        if bytes.len() > MAX_CONTAINER_SIZE {
            return Err(DiaryError::OutOfRangeSize);
        }
        if !container_well_sized(bytes) {
            return Err(DiaryError::InvalidFormat);
        }
        let plain = match unseal(bytes, password) {
            Ok(p) => p,
            Err(e) => {
                return Err(e);
            },
        };
        let text = match string_from_utf8(plain) {
            Some(t) => t,
            None => {
                return Err(DiaryError::InvalidFormat);
            },
        };
        let parsed = match codec::parse_payload(text.as_str()) {
            Some(v) => v,
            None => {
                return Err(DiaryError::InvalidFormat);
            },
        };
        let ghost vp = view_pairs(parsed@);
        let mut d = Diary::new();
        let n = parsed.len();
        let mut i: usize = 0;
        proof {
            assert(vp.take(0) =~= Seq::<(Date, Seq<char>)>::empty());
        }
        while i < n
            invariant
                i <= n,
                n == parsed@.len(),
                vp == view_pairs(parsed@),
                forall|k: int| 0 <= k < parsed@.len() ==> (#[trigger] parsed@[k]).0.wf(),
                d.wf(),
                d@ == to_map(vp.take(i as int)),
            decreases n - i,
        {
            let (day, txt) = (parsed[i].0, parsed[i].1.clone());
            d.set(day, txt);
            proof {
                assert(vp.take(i as int + 1).drop_last() =~= vp.take(i as int));
                assert(vp.take(i as int + 1).last() == vp[i as int]);
                assert(vp[i as int] == (parsed@[i as int].0, parsed@[i as int].1@));
            }
            i += 1;
        }
        proof {
            assert(vp.take(n as int) =~= vp);
        }
        Ok(d)
    }

    /// What reading the journal yields, given the file-read outcome the
    /// host reports: a missing file is `NotFound`, any other read failure
    /// `NotAccessible`, and bytes are loaded as by [`Diary::load_spec`].
    pub open spec fn read_outcome(data: Result<Vec<u8>, FileError>, p: Seq<char>) -> Result<
        Map<Date, Seq<char>>,
        DiaryError,
    > {
        match data {
            Ok(b) => Diary::load_spec(b@, p),
            Err(FileError::NotFound) => Err(DiaryError::NotFound),
            Err(FileError::Other) => Err(DiaryError::NotAccessible),
        }
    }

    /// Classifies a file-read outcome and loads the container: a missing
    /// file is `NotFound`, any other read failure `NotAccessible`, and the
    /// bytes read are decrypted and parsed as by [`Diary::load_bytes`].
    pub fn read_jrnl(data: Result<Vec<u8>, FileError>, password: &str) -> (r: Result<
        Diary,
        DiaryError,
    >)
        ensures
            r matches Ok(d) ==> d.wf() && Self::read_outcome(data, password@) == Ok::<
                Map<Date, Seq<char>>,
                DiaryError,
            >(d@),
            r matches Err(e) ==> Self::read_outcome(data, password@) == Err::<
                Map<Date, Seq<char>>,
                DiaryError,
            >(e),
    {
        match data {
            Ok(bytes) => Diary::load_bytes(&bytes, password),
            Err(FileError::NotFound) => Err(DiaryError::NotFound),
            Err(FileError::Other) => Err(DiaryError::NotAccessible),
        }
    }

    /// Serializes and encrypts the document, yielding the container image
    /// to be written as a full replacement of the file. Loading the result
    /// with the same password gives the document back, and a document whose
    /// serialized form fits the container size bound always saves.
    pub fn write_to(&self, password: &str) -> (r: Result<Vec<u8>, DiaryError>)
        requires
            self.wf(),
        ensures
            vstd::utf8::encode_utf8(codec::ser_doc(view_pairs(self.entries@))).len()
                <= MAX_CONTAINER_SIZE ==> r is Ok,
            r matches Ok(c) ==> header_ok(c@) && opens_to(c@, password@) == Some(
                vstd::utf8::encode_utf8(codec::ser_doc(view_pairs(self.entries@))),
            ) && c@.len() == vstd::utf8::encode_utf8(
                codec::ser_doc(view_pairs(self.entries@)),
            ).len() + CONTAINER_PREFIX_SIZE,
            r matches Ok(c) ==> (c@.len() <= MAX_CONTAINER_SIZE ==> Self::load_spec(c@, password@)
                == Ok::<Map<Date, Seq<char>>, DiaryError>(self@)),
    {
        let payload = codec::ser_payload(&self.entries);
        let bytes = payload.as_str().as_bytes_vec();
        let r = seal(&bytes, password);
        proof {
            match &r {
                Ok(c) => {
                    if c@.len() <= MAX_CONTAINER_SIZE {
                        lemma_load_of_sealed(c@, password@, *self);
                    }
                },
                Err(_) => {},
            }
        }
        r
    }
}

/// Round trip of the persistence layer: a container that decrypts, under a
/// password, to the serialized payload of a well-formed document loads back
/// as exactly that document, provided it stays within the size bound.
pub proof fn lemma_load_of_sealed(c: Seq<u8>, p: Seq<char>, d: Diary)
    requires
        d.wf(),
        opens_to(c, p) == Some(
            vstd::utf8::encode_utf8(codec::ser_doc(view_pairs(d.entries@))),
        ),
        declared_fits(c),
        c.len() <= MAX_CONTAINER_SIZE,
    ensures
        Diary::load_spec(c, p) == Ok::<Map<Date, Seq<char>>, DiaryError>(d@),
{
    let vp = view_pairs(d.entries@);
    let payload = codec::ser_doc(vp);
    vstd::utf8::encode_utf8_valid_utf8(payload);
    vstd::utf8::encode_utf8_decode_utf8(payload);
    codec::lemma_payload_roundtrip(vp);
}

} // verus!
