//! Payload encoding: a small closed set of formats, each able to turn the
//! cached values and the metadata ledger into bytes and back.
//!
//! The byte-level work is done by the `bincode` and `serde_json` crates;
//! the bytes they produce are named by uninterpreted spec functions, and the
//! round trip from a value to its bytes and back is stated of those names.

use vstd::prelude::*;
use vstd::string::StringExecFns;

verus! {

/// Declares bincode's error kind, so that the library's error types can
/// carry a `bincode::Error` through unchanged.
#[verifier::external_type_specification]
#[verifier::external_body]
pub struct ExBincodeErrorKind(bincode::ErrorKind);

/// Declares serde_json's error, so that the library's error types can
/// carry it through unchanged.
#[verifier::external_type_specification]
#[verifier::external_body]
pub struct ExJsonError(serde_json::Error);

#[derive(Clone, Copy, Debug, PartialEq, Eq, Structural)]
pub enum DataEncoding {
    Bincode,
    Json,
}

/// The bytes that the bincode format produces for a cached value.
/// They are a function of the value alone.
pub uninterp spec fn bincode_value_bytes(value: u64) -> Seq<u8>;

/// The bytes that the JSON format produces for a cached value.
/// They are a function of the value alone.
pub uninterp spec fn json_value_bytes(value: u64) -> Seq<u8>;

/// The bytes that the bincode format produces for the metadata ledger,
/// given its running size, its id counter and its entry rows in order.
pub uninterp spec fn bincode_metadata_bytes(
    current_size: u64,
    counter: u64,
    rows: Seq<(u32, u64, u64)>,
) -> Seq<u8>;

/// The bytes that the JSON format produces for the metadata ledger,
/// given its running size, its id counter and its entry rows in order.
pub uninterp spec fn json_metadata_bytes(
    current_size: u64,
    counter: u64,
    rows: Seq<(u32, u64, u64)>,
) -> Seq<u8>;

/// The bytes of a cached value under the given format.
pub open spec fn value_bytes(encoding: DataEncoding, value: u64) -> Seq<u8> {
    match encoding {
        DataEncoding::Bincode => bincode_value_bytes(value),
        DataEncoding::Json => json_value_bytes(value),
    }
}

/// The bytes of the metadata ledger under the given format.
pub open spec fn metadata_bytes(
    encoding: DataEncoding,
    current_size: u64,
    counter: u64,
    rows: Seq<(u32, u64, u64)>,
) -> Seq<u8> {
    match encoding {
        DataEncoding::Bincode => bincode_metadata_bytes(current_size, counter, rows),
        DataEncoding::Json => json_metadata_bytes(current_size, counter, rows),
    }
}

/// Relies on bincode::serialize: with the default configuration the bytes
/// are a function of the value alone (fixed-width little-endian integers),
/// and the call cannot fail for an integer — it writes into a vector with
/// no size limit, and no custom serialization is involved.
#[verifier::external_body]
fn encode_value_bincode(value: u64) -> (r: Result<Vec<u8>, bincode::Error>)
    ensures
        r is Ok,
        r matches Ok(b) ==> b@ == bincode_value_bytes(value),
{
    bincode::serialize(&value)
}

/// Relies on bincode::deserialize: decoding the bytes that
/// bincode::serialize produced for a value returns that value.
#[verifier::external_body]
fn decode_value_bincode(bytes: &[u8]) -> (r: Result<u64, bincode::Error>)
    ensures
        forall|v: u64| bytes@ == bincode_value_bytes(v) ==> r is Ok && r->Ok_0 == v,
{
    bincode::deserialize(bytes)
}

/// Relies on serde_json::to_vec: the bytes are a function of the value
/// alone (the decimal text of the number), and the call cannot fail for
/// an integer — failure would take a failing Serialize impl or a map with
/// non-string keys, and the sink is a vector.
#[verifier::external_body]
fn encode_value_json(value: u64) -> (r: Result<Vec<u8>, serde_json::Error>)
    ensures
        r is Ok,
        r matches Ok(b) ==> b@ == json_value_bytes(value),
{
    serde_json::to_vec(&value)
}

/// Relies on serde_json::from_slice: decoding the bytes that
/// serde_json::to_vec produced for a value returns that value.
#[verifier::external_body]
fn decode_value_json(bytes: &[u8]) -> (r: Result<u64, serde_json::Error>)
    ensures
        forall|v: u64| bytes@ == json_value_bytes(v) ==> r is Ok && r->Ok_0 == v,
{
    serde_json::from_slice(bytes)
}

/// Relies on bincode::serialize applied to the metadata triple; the bytes
/// are a function of the triple alone, and the call cannot fail for this
/// type — integers and a vector of known length, written into a vector
/// with no size limit.
#[verifier::external_body]
fn encode_metadata_bincode(
    current_size: u64,
    counter: u64,
    rows: &Vec<(u32, u64, u64)>,
) -> (r: Result<Vec<u8>, bincode::Error>)
    ensures
        r is Ok,
        r matches Ok(b) ==> b@ == bincode_metadata_bytes(current_size, counter, rows@),
{
    bincode::serialize(&(current_size, counter, rows))
}

/// Relies on bincode::deserialize: decoding the bytes that
/// bincode::serialize produced for a metadata triple returns that triple.
#[verifier::external_body]
fn decode_metadata_bincode(bytes: &[u8]) -> (r: Result<
    (u64, u64, Vec<(u32, u64, u64)>),
    bincode::Error,
>)
    ensures
        forall|cs: u64, ct: u64, rows: Seq<(u32, u64, u64)>|
            bytes@ == bincode_metadata_bytes(cs, ct, rows) ==> r is Ok && r->Ok_0.0 == cs
                && r->Ok_0.1 == ct && r->Ok_0.2@ == rows,
{
    bincode::deserialize(bytes)
}

/// Relies on serde_json::to_vec applied to the metadata triple; the bytes
/// are a function of the triple alone, and the call cannot fail for this
/// type — integers, tuples and vectors serialize as numbers and arrays,
/// no map is involved, and the sink is a vector.
#[verifier::external_body]
fn encode_metadata_json(
    current_size: u64,
    counter: u64,
    rows: &Vec<(u32, u64, u64)>,
) -> (r: Result<Vec<u8>, serde_json::Error>)
    ensures
        r is Ok,
        r matches Ok(b) ==> b@ == json_metadata_bytes(current_size, counter, rows@),
{
    serde_json::to_vec(&(current_size, counter, rows))
}

/// Relies on serde_json::from_slice: decoding the bytes that
/// serde_json::to_vec produced for a metadata triple returns that triple.
#[verifier::external_body]
fn decode_metadata_json(bytes: &[u8]) -> (r: Result<
    (u64, u64, Vec<(u32, u64, u64)>),
    serde_json::Error,
>)
    ensures
        forall|cs: u64, ct: u64, rows: Seq<(u32, u64, u64)>|
            bytes@ == json_metadata_bytes(cs, ct, rows) ==> r is Ok && r->Ok_0.0 == cs
                && r->Ok_0.1 == ct && r->Ok_0.2@ == rows,
{
    serde_json::from_slice(bytes)
}

impl DataEncoding {
    /// The file-name tag of this format.
    pub open spec fn extension_spec(&self) -> Seq<char> {
        match *self {
            DataEncoding::Bincode => seq!['b', 'i', 'n', 'c', 'o', 'd', 'e'],
            DataEncoding::Json => seq!['j', 's', 'o', 'n'],
        }
    }

    /// The file name `{basename}.{extension}`.
    pub open spec fn filename_spec(&self, basename: Seq<char>) -> Seq<char> {
        basename + seq!['.'] + self.extension_spec()
    }

    pub fn extension(&self) -> (r: &'static str)
        ensures
            r@ == self.extension_spec(),
    {
        match *self {
            DataEncoding::Bincode => {
                let r = "bincode";
                proof {
                    reveal_strlit("bincode");
                    assert(r@ =~= self.extension_spec());
                }
                r
            },
            DataEncoding::Json => {
                let r = "json";
                proof {
                    reveal_strlit("json");
                    assert(r@ =~= self.extension_spec());
                }
                r
            },
        }
    }

    pub fn filename(&self, basename: &str) -> (r: String)
        ensures
            r@ == self.filename_spec(basename@),
    {
        let mut r = String::from_str(basename);
        r.append(".");
        r.append(self.extension());
        proof {
            reveal_strlit(".");
            assert(r@ =~= self.filename_spec(basename@));
        }
        r
    }

    /// Encode one cached value: the call succeeds, with the exact bytes of
    /// the chosen format. The error type remains in the signature for
    /// callers and for symmetry with decoding, but neither format can fail
    /// on an integer.
    pub fn serialize(&self, value: u64) -> (r: Result<Vec<u8>, SerializeError>)
        ensures
            r is Ok,
            r matches Ok(b) ==> b@ == value_bytes(*self, value),
    {
        match *self {
            DataEncoding::Bincode => match encode_value_bincode(value) {
                Ok(b) => Ok(b),
                Err(e) => Err(SerializeError::Bincode(e)),
            },
            DataEncoding::Json => match encode_value_json(value) {
                Ok(b) => Ok(b),
                Err(e) => Err(SerializeError::Json(e)),
            },
        }
    }

    /// Decode one cached value: bytes that this format produced for a value
    /// decode back to exactly that value.
    pub fn deserialize(&self, bytes: &[u8]) -> (r: Result<u64, DeserializeError>)
        ensures
            forall|v: u64| bytes@ == value_bytes(*self, v) ==> r is Ok && r->Ok_0 == v,
            r is Err ==> match *self {
                DataEncoding::Bincode => r->Err_0 is Bincode,
                DataEncoding::Json => r->Err_0 is Json,
            },
    {
        match *self {
            DataEncoding::Bincode => match decode_value_bincode(bytes) {
                Ok(v) => Ok(v),
                Err(e) => Err(DeserializeError::Bincode(e)),
            },
            DataEncoding::Json => match decode_value_json(bytes) {
                Ok(v) => Ok(v),
                Err(e) => Err(DeserializeError::Json(e)),
            },
        }
    }

    /// Encode the metadata ledger, given as its running size, its id
    /// counter and its entry rows in queue order: the call succeeds, with
    /// the exact bytes of the chosen format. Neither format can fail on
    /// this plain triple.
    pub fn serialize_metadata(
        &self,
        current_size: u64,
        counter: u64,
        rows: &Vec<(u32, u64, u64)>,
    ) -> (r: Result<Vec<u8>, SerializeError>)
        ensures
            r is Ok,
            r matches Ok(b) ==> b@ == metadata_bytes(*self, current_size, counter, rows@),
    {
        match *self {
            DataEncoding::Bincode => match encode_metadata_bincode(current_size, counter, rows) {
                Ok(b) => Ok(b),
                Err(e) => Err(SerializeError::Bincode(e)),
            },
            DataEncoding::Json => match encode_metadata_json(current_size, counter, rows) {
                Ok(b) => Ok(b),
                Err(e) => Err(SerializeError::Json(e)),
            },
        }
    }

    /// Decode the metadata ledger: bytes that this format produced for a
    /// metadata triple decode back to exactly that triple.
    pub fn deserialize_metadata(&self, bytes: &[u8]) -> (r: Result<
        (u64, u64, Vec<(u32, u64, u64)>),
        DeserializeError,
    >)
        ensures
            forall|cs: u64, ct: u64, rows: Seq<(u32, u64, u64)>|
                bytes@ == metadata_bytes(*self, cs, ct, rows) ==> r is Ok && r->Ok_0.0 == cs
                    && r->Ok_0.1 == ct && r->Ok_0.2@ == rows,
            r is Err ==> match *self {
                DataEncoding::Bincode => r->Err_0 is Bincode,
                DataEncoding::Json => r->Err_0 is Json,
            },
    {
        match *self {
            DataEncoding::Bincode => match decode_metadata_bincode(bytes) {
                Ok(t) => Ok(t),
                Err(e) => Err(DeserializeError::Bincode(e)),
            },
            DataEncoding::Json => match decode_metadata_json(bytes) {
                Ok(t) => Ok(t),
                Err(e) => Err(DeserializeError::Json(e)),
            },
        }
    }
}

/// A byte-counting adapter: pairs a sink with the number of bytes that have
/// been handed to it, for encoders whose sinks do not report a count.
pub struct WriteCounter<W> {
    pub writer: W,
    pub counter: usize,
}

impl<W> WriteCounter<W> {
    pub fn new(writer: W) -> (r: Self)
        ensures
            r.counter == 0,
            r.writer == writer,
    {
        WriteCounter { writer, counter: 0 }
    }

    /// Note that `n` further bytes went through to the sink.
    pub fn record(&mut self, n: usize)
        requires
            old(self).counter + n <= usize::MAX,
        ensures
            final(self).counter == old(self).counter + n,
            final(self).writer == old(self).writer,
    {
        self.counter = self.counter + n;
    }
}

/// A failure while encoding: the underlying encoder's error, kept apart
/// from filesystem errors because the remediation differs.
#[derive(Debug)]
pub enum SerializeError {
    Bincode(bincode::Error),
    Json(serde_json::Error),
    WriteError(std::io::Error),
}

/// A failure while decoding: malformed or type-mismatched bytes.
#[derive(Debug)]
pub enum DeserializeError {
    Bincode(bincode::Error),
    Json(serde_json::Error),
}

} // verus!
