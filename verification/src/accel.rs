//! Compression and encryption of tunnel payloads.
//!
//! A payload is deflated, then encrypted with ChaCha20-Poly1305 under a fresh
//! nonce. What travels is `nonce || ciphertext`.
use chacha20poly1305::aead::{Aead, KeyInit, OsRng};
use chacha20poly1305::{ChaCha20Poly1305, Key, Nonce};
use rand::RngCore;
use std::io::{Read, Write};
use vstd::prelude::*;
use vstd::slice::slice_subrange;
use vstd::string::*;

verus! {

/// Length of a nonce in bytes.
pub const NONCE_LEN: usize = 12;

/// Length of the authentication tag that ends a ciphertext, in bytes.
pub const TAG_LEN: usize = 16;

/// The longest message, in bytes, for which the cipher has keystream.
pub const MAX_MESSAGE: u64 = 274_877_906_816;

/// From this message length on the cipher reports an error.
pub const REFUSED_MESSAGE: u64 = 274_877_906_880;

/// The error of `chacha20poly1305`, which carries no detail.
#[verifier::external_type_specification]
#[verifier::external_body]
pub struct ExAeadError(chacha20poly1305::aead::Error);

/// The error of the compression streams.
#[verifier::external_type_specification]
#[verifier::external_body]
pub struct ExIoError(std::io::Error);

/// What an outside call handed back, as plain bytes.
pub open spec fn bytes_of<E>(res: Result<Vec<u8>, E>) -> Option<Seq<u8>> {
    match res {
        Ok(v) => Some(v@),
        Err(_) => None,
    }
}

/// The bytes that `flate2` writes for `data` at its default level.
pub uninterp spec fn deflated(data: Seq<u8>) -> Option<Seq<u8>>;

/// The bytes that `flate2` reads back from the deflate stream `data`.
pub uninterp spec fn inflated(data: Seq<u8>) -> Option<Seq<u8>>;

/// The ciphertext, tag included, that ChaCha20-Poly1305 gives for `plaintext`.
pub uninterp spec fn encrypted(key: Seq<u8>, nonce: Seq<u8>, plaintext: Seq<u8>) -> Option<Seq<u8>>;

/// The plaintext that ChaCha20-Poly1305 gives for `ciphertext`, tag included.
pub uninterp spec fn decrypted(key: Seq<u8>, nonce: Seq<u8>, ciphertext: Seq<u8>) -> Option<Seq<u8>>;

/// Calls `flate2::write::DeflateEncoder` at the default level on the whole of
/// `data`. Claims that the outcome depends on `data` alone, that what was
/// written inflates to `data` again, and that it succeeds: the encoder hands on
/// the errors of the stream that it writes to, a `Vec` reports none, and the
/// compressor's own errors are for wrong parameters or a callback of the
/// caller's.
#[verifier::external_body]
fn deflate_compress(data: &[u8]) -> (res: Result<Vec<u8>, std::io::Error>)
    ensures
        bytes_of(res) == deflated(data@),
        res is Ok,
        res matches Ok(v) ==> inflated(v@) == Some(data@),
{
    let mut encoder = flate2::write::DeflateEncoder::new(Vec::new(), flate2::Compression::default());
    encoder.write_all(data)?;
    encoder.finish()
}

/// Calls `flate2::read::DeflateDecoder` on `data` and reads it to its end.
/// Claims that the outcome depends on `data` alone.
#[verifier::external_body]
fn deflate_decompress(data: &[u8]) -> (res: Result<Vec<u8>, std::io::Error>)
    ensures
        bytes_of(res) == inflated(data@),
{
    let mut decoder = flate2::read::DeflateDecoder::new(data);
    let mut out = Vec::new();
    decoder.read_to_end(&mut out)?;
    Ok(out)
}

/// Calls `chacha20poly1305::ChaCha20Poly1305` to encrypt `plaintext` without
/// associated data. Claims that the outcome depends on the three arguments
/// alone, that it is an error only from `REFUSED_MESSAGE` bytes on, that the
/// tag makes the ciphertext longer by `TAG_LEN`, that the ciphertext decrypts
/// to `plaintext` under the same key and nonce, and that it does not decrypt
/// with any other tag, since tags are compared exactly. Lengths at which the
/// keystream runs out, or the buffer cannot be allocated, are left out.
#[verifier::external_body]
fn cipher_encrypt(key: &[u8; 32], nonce: &[u8; 12], plaintext: &[u8]) -> (res: Result<
    Vec<u8>,
    chacha20poly1305::aead::Error,
>)
    requires
        message_fits(plaintext@.len()),
    ensures
        bytes_of(res) == encrypted(key@, nonce@, plaintext@),
        res is Ok <==> plaintext@.len() <= MAX_MESSAGE,
        res matches Ok(c) ==> c@.len() == plaintext@.len() + TAG_LEN,
        res matches Ok(c) ==> decrypted(key@, nonce@, c@) == Some(plaintext@),
        res matches Ok(c) ==> forall|d: Seq<u8>|
            only_tag_differs(c@, d) ==> #[trigger] decrypted(key@, nonce@, d) is None,
{
    ChaCha20Poly1305::new(Key::from_slice(key)).encrypt(Nonce::from_slice(nonce), plaintext)
}

/// Calls `chacha20poly1305::ChaCha20Poly1305` to decrypt `ciphertext` without
/// associated data. Claims that the outcome depends on the three arguments
/// alone, that less than a tag is an error, and that the plaintext is shorter
/// by `TAG_LEN`. Lengths at which the keystream runs out are left out.
#[verifier::external_body]
fn cipher_decrypt(key: &[u8; 32], nonce: &[u8; 12], ciphertext: &[u8]) -> (res: Result<
    Vec<u8>,
    chacha20poly1305::aead::Error,
>)
    requires
        keystream_lasts(ciphertext@.len() - TAG_LEN),
    ensures
        bytes_of(res) == decrypted(key@, nonce@, ciphertext@),
        res matches Ok(p) ==> p@.len() + TAG_LEN == ciphertext@.len(),
{
    ChaCha20Poly1305::new(Key::from_slice(key)).decrypt(Nonce::from_slice(nonce), ciphertext)
}

/// Calls `OsRng.fill_bytes`: 32 bytes from the operating system's generator.
/// Nothing is claimed of their value.
#[verifier::external_body]
fn os_random_key() -> (key: [u8; 32]) {
    let mut key = [0u8; 32];
    OsRng.fill_bytes(&mut key);
    key
}

/// Calls `rand::thread_rng().fill_bytes`: 12 bytes from the thread's
/// generator. Nothing is claimed of their value.
#[verifier::external_body]
fn thread_random_nonce() -> (nonce: [u8; 12]) {
    let mut nonce = [0u8; 12];
    rand::thread_rng().fill_bytes(&mut nonce);
    nonce
}

/// Two byte strings that end in a tag and differ in it alone.
pub open spec fn only_tag_differs(a: Seq<u8>, b: Seq<u8>) -> bool {
    &&& a.len() == b.len()
    &&& a.len() >= TAG_LEN
    &&& a.take(a.len() - TAG_LEN) == b.take(b.len() - TAG_LEN)
    &&& a != b
}

/// The cipher either has keystream for `len` bytes or reports an error.
pub open spec fn keystream_lasts(len: int) -> bool {
    len <= MAX_MESSAGE || len >= REFUSED_MESSAGE
}

/// The cipher can be handed a message of `len` bytes.
pub open spec fn message_fits(len: nat) -> bool {
    keystream_lasts(len as int) && len + TAG_LEN <= isize::MAX
}

/// Where compression and encryption are to run.
#[derive(Debug, Clone, Copy, PartialEq, Eq, Structural)]
pub enum AccelBackend {
    /// Deflate and ChaCha20-Poly1305 on the processor.
    Cpu,
    /// Requested, not available: `Cpu` takes its place.
    Gpu,
    /// Requested, not available: `Cpu` takes its place.
    Npu,
    /// Requested, not available: `Cpu` takes its place.
    HardwareAccelerator,
}

/// Why a payload was not sealed or opened.
#[derive(Debug)]
pub enum AccelError {
    /// Compression failed.
    Compress(std::io::Error),
    /// The compressed payload has a length for which the machine's memory or the
    /// keystream does not suffice.
    TooLarge,
    /// The cipher refused the compressed payload.
    Encrypt(chacha20poly1305::aead::Error),
    /// A sealed payload that is shorter than a nonce.
    FrameTooShort,
    /// The ciphertext is not authentic under this key and nonce.
    Decrypt(chacha20poly1305::aead::Error),
    /// The decrypted bytes are no deflate stream.
    Decompress(std::io::Error),
}

/// Calls `to_string` on the error of `chacha20poly1305`. Claims the text that
/// its `Display` writes.
#[verifier::external_body]
fn aead_error_text(error: &chacha20poly1305::aead::Error) -> (res: String)
    ensures
        res@ == "aead::Error"@,
{
    error.to_string()
}

impl AccelError {
    /// What a user is told. The errors of the compression streams speak for
    /// themselves.
    pub open spec fn text(self) -> Option<Seq<char>> {
        match self {
            AccelError::Compress(_) => None,
            AccelError::TooLarge => Some(
                "the compressed payload exceeds what the cipher can take"@,
            ),
            AccelError::Encrypt(_) => Some("encrypt failed: "@ + "aead::Error"@),
            AccelError::FrameTooShort => Some("frame too short to contain nonce"@),
            AccelError::Decrypt(_) => Some(
                "decrypt failed (tamper detected?): "@ + "aead::Error"@,
            ),
            AccelError::Decompress(_) => None,
        }
    }

    /// What a user is told; `None` for the errors of the compression streams,
    /// which speak for themselves.
    pub fn message(&self) -> (res: Option<String>)
        ensures
            match self.text() {
                Some(text) => res matches Some(message) && message@ == text,
                None => res is None,
            },
    {
        match self {
            AccelError::Compress(_) => None,
            AccelError::TooLarge => Some(
                "the compressed payload exceeds what the cipher can take".to_string(),
            ),
            AccelError::Encrypt(e) => {
                let mut message = "encrypt failed: ".to_string();
                message.append(aead_error_text(e).as_str());
                Some(message)
            },
            AccelError::FrameTooShort => Some("frame too short to contain nonce".to_string()),
            AccelError::Decrypt(e) => {
                let mut message = "decrypt failed (tamper detected?): ".to_string();
                message.append(aead_error_text(e).as_str());
                Some(message)
            },
            AccelError::Decompress(_) => None,
        }
    }
}

/// Seals and opens payloads under one key.
pub struct PayloadAccelerator {
    backend: AccelBackend,
    key: [u8; 32],
}

/// What `data` opens to under `key`, where it opens.
pub open spec fn opened(key: Seq<u8>, data: Seq<u8>) -> Option<Seq<u8>> {
    if data.len() < NONCE_LEN || !keystream_lasts(data.len() - NONCE_LEN - TAG_LEN) {
        None
    } else {
        match decrypted(key, nonce_of(data), ciphertext_of(data)) {
            Some(compressed) => inflated(compressed),
            None => None,
        }
    }
}

/// The nonce at the head of a sealed payload.
pub open spec fn nonce_of(data: Seq<u8>) -> Seq<u8> {
    data.subrange(0, NONCE_LEN as int)
}

/// The ciphertext behind the nonce of a sealed payload.
pub open spec fn ciphertext_of(data: Seq<u8>) -> Seq<u8> {
    data.subrange(NONCE_LEN as int, data.len() as int)
}

/// The compressed payload, once compressed, cannot be encrypted and framed on
/// this machine.
pub open spec fn too_large(compressed_len: nat) -> bool {
    ||| !message_fits(compressed_len)
    ||| compressed_len <= MAX_MESSAGE && compressed_len + TAG_LEN + NONCE_LEN > isize::MAX
}

/// `plaintext`, once compressed, can be encrypted and framed.
pub open spec fn sealable(plaintext: Seq<u8>) -> bool {
    deflated(plaintext) matches Some(compressed) && compressed.len() <= MAX_MESSAGE && !too_large(
        compressed.len(),
    )
}

/// The length of `plaintext` once it is sealed.
pub open spec fn sealed_len(plaintext: Seq<u8>) -> int {
    NONCE_LEN + deflated(plaintext)->0.len() + TAG_LEN
}

/// `error` is what `data` is refused with under `key`.
pub open spec fn rejected_with(key: Seq<u8>, data: Seq<u8>, error: AccelError) -> bool {
    if data.len() < NONCE_LEN {
        error is FrameTooShort
    } else if !keystream_lasts(data.len() - NONCE_LEN - TAG_LEN) {
        error is TooLarge
    } else {
        match decrypted(key, nonce_of(data), ciphertext_of(data)) {
            None => error is Decrypt,
            Some(compressed) => inflated(compressed) is None && error is Decompress,
        }
    }
}

/// The outcome of sealing `plaintext` under `key` with `nonce`.
pub open spec fn seal_outcome(
    key: Seq<u8>,
    nonce: Seq<u8>,
    plaintext: Seq<u8>,
    res: Result<Vec<u8>, AccelError>,
) -> bool {
    match deflated(plaintext) {
        None => res matches Err(AccelError::Compress(_)),
        Some(compressed) => if too_large(compressed.len()) {
            res == Err::<Vec<u8>, AccelError>(AccelError::TooLarge)
        } else {
            match encrypted(key, nonce, compressed) {
                None => res matches Err(AccelError::Encrypt(_)),
                Some(ciphertext) => res matches Ok(v) && v@ == nonce + ciphertext,
            }
        },
    }
}

impl PayloadAccelerator {
    /// The key that payloads are sealed under.
    pub closed spec fn key(&self) -> Seq<u8> {
        self.key@
    }

    /// The backend that is in use.
    pub closed spec fn effective_backend(&self) -> AccelBackend {
        self.backend
    }

    /// An accelerator for `key`. Every backend that is not available gives way
    /// to `Cpu`.
    pub fn new(backend: AccelBackend, key: &[u8; 32]) -> (res: Self)
        ensures
            res.key() == key@,
            res.effective_backend() == AccelBackend::Cpu,
    {
        let effective = match backend {
            AccelBackend::Cpu => AccelBackend::Cpu,
            _ => AccelBackend::Cpu,
        };
        PayloadAccelerator { backend: effective, key: *key }
    }

    /// A fresh key from the operating system's random generator.
    pub fn generate_key() -> (key: [u8; 32]) {
        os_random_key()
    }

    /// The backend that is in use.
    pub fn backend(&self) -> (res: AccelBackend)
        ensures
            res == self.effective_backend(),
    {
        self.backend
    }

    /// Compresses and encrypts `plaintext` under a random nonce and returns
    /// `nonce || ciphertext`.
    pub fn seal(&self, plaintext: &[u8]) -> (res: Result<Vec<u8>, AccelError>)
        ensures
            exists|nonce: Seq<u8>|
                nonce.len() == NONCE_LEN && #[trigger] seal_outcome(
                    self.key(),
                    nonce,
                    plaintext@,
                    res,
                ),
            deflated(plaintext@) is Some,
            res is Ok <==> sealable(plaintext@),
            res matches Ok(v) ==> opened(self.key(), v@) == Some(plaintext@),
            res matches Ok(v) ==> v@.len() == sealed_len(plaintext@),
            res matches Ok(v) ==> forall|d: Seq<u8>|
                only_tag_differs(v@, d) ==> #[trigger] opened(self.key(), d) is None,
    {
        let nonce = thread_random_nonce();
        self.seal_with_nonce(&nonce, plaintext)
    }

    /// Compresses and encrypts `plaintext` under `nonce` and returns
    /// `nonce || ciphertext`.
    pub fn seal_with_nonce(&self, nonce: &[u8; 12], plaintext: &[u8]) -> (res: Result<
        Vec<u8>,
        AccelError,
    >)
        ensures
            seal_outcome(self.key(), nonce@, plaintext@, res),
            deflated(plaintext@) is Some,
            res is Ok <==> sealable(plaintext@),
            res matches Ok(v) ==> opened(self.key(), v@) == Some(plaintext@),
            res matches Ok(v) ==> v@.len() == sealed_len(plaintext@),
            res matches Ok(v) ==> forall|d: Seq<u8>|
                only_tag_differs(v@, d) ==> #[trigger] opened(self.key(), d) is None,
    {
        let compressed = match deflate_compress(plaintext) {
            Ok(v) => v,
            Err(e) => return Err(AccelError::Compress(e)),
        };
        let len = compressed.len() as u64;
        if MAX_MESSAGE < len && len < REFUSED_MESSAGE {
            return Err(AccelError::TooLarge);
        }
        if compressed.len() > isize::MAX as usize - TAG_LEN {
            return Err(AccelError::TooLarge);
        }
        let ciphertext = match cipher_encrypt(&self.key, nonce, compressed.as_slice()) {
            Ok(v) => v,
            Err(e) => return Err(AccelError::Encrypt(e)),
        };
        if ciphertext.len() > isize::MAX as usize - NONCE_LEN {
            return Err(AccelError::TooLarge);
        }
        let out = join_sealed(nonce, ciphertext.as_slice());
        assert(nonce_of(out@) =~= nonce@);
        assert(ciphertext_of(out@) =~= ciphertext@);
        assert forall|d: Seq<u8>| only_tag_differs(out@, d) implies #[trigger] opened(
            self.key(),
            d,
        ) is None by {
            lemma_tag_differs_behind_nonce(out@, d);
        }
        Ok(out)
    }

    /// Decrypts and decompresses what `seal` returned.
    pub fn open(&self, data: &[u8]) -> (res: Result<Vec<u8>, AccelError>)
        ensures
            bytes_of(res) == opened(self.key(), data@),
            res is Ok ==> data@.len() >= NONCE_LEN + TAG_LEN,
            res matches Err(e) ==> rejected_with(self.key(), data@, e),
    {
        let (nonce, ciphertext) = match split_sealed(data) {
            Some(parts) => parts,
            None => return Err(AccelError::FrameTooShort),
        };
        if ciphertext.len() >= TAG_LEN {
            let len: u64 = (ciphertext.len() - TAG_LEN) as u64;
            if MAX_MESSAGE < len && len < REFUSED_MESSAGE {
                return Err(AccelError::TooLarge);
            }
        }
        let compressed = match cipher_decrypt(&self.key, &nonce, ciphertext) {
            Ok(v) => v,
            Err(e) => return Err(AccelError::Decrypt(e)),
        };
        match deflate_decompress(compressed.as_slice()) {
            Ok(v) => Ok(v),
            Err(e) => Err(AccelError::Decompress(e)),
        }
    }
}

/// Where two sealed payloads differ in the tag alone, their nonces are the same
/// and their ciphertexts differ in the tag alone.
proof fn lemma_tag_differs_behind_nonce(a: Seq<u8>, b: Seq<u8>)
    requires
        a.len() >= NONCE_LEN + TAG_LEN,
        only_tag_differs(a, b),
    ensures
        nonce_of(a) == nonce_of(b),
        only_tag_differs(ciphertext_of(a), ciphertext_of(b)),
{
    let n = a.len() - TAG_LEN;
    assert forall|i: int| 0 <= i < n implies a[i] == b[i] by {
        assert(a.take(n)[i] == b.take(n)[i]);
    }
    assert(nonce_of(a) =~= nonce_of(b));
    assert(ciphertext_of(a).take(n - NONCE_LEN) =~= ciphertext_of(b).take(n - NONCE_LEN));
    if ciphertext_of(a) == ciphertext_of(b) {
        assert forall|i: int| 0 <= i < a.len() implies a[i] == b[i] by {
            if i >= NONCE_LEN {
                assert(ciphertext_of(a)[i - NONCE_LEN] == ciphertext_of(b)[i - NONCE_LEN]);
            }
        }
        assert(a =~= b);
    }
}

/// `nonce || ciphertext`.
pub fn join_sealed(nonce: &[u8; 12], ciphertext: &[u8]) -> (out: Vec<u8>)
    requires
        ciphertext@.len() + NONCE_LEN <= isize::MAX,
    ensures
        out@ == nonce@ + ciphertext@,
{
    let mut out: Vec<u8> = Vec::with_capacity(NONCE_LEN + ciphertext.len());
    out.extend_from_slice(nonce);
    out.extend_from_slice(ciphertext);
    out
}

/// Parts `data` into its nonce and its ciphertext; `None` where it is shorter
/// than a nonce.
pub fn split_sealed(data: &[u8]) -> (res: Option<([u8; 12], &[u8])>)
    ensures
        res is Some <==> data@.len() >= NONCE_LEN,
        res matches Some((nonce, ciphertext)) ==> nonce@ == nonce_of(data@) && ciphertext@
            == ciphertext_of(data@),
{
    if data.len() < NONCE_LEN {
        return None;
    }
    let nonce: [u8; 12] = [
        data[0],
        data[1],
        data[2],
        data[3],
        data[4],
        data[5],
        data[6],
        data[7],
        data[8],
        data[9],
        data[10],
        data[11],
    ];
    let ciphertext = slice_subrange(data, NONCE_LEN, data.len());
    assert(nonce@ =~= nonce_of(data@));
    Some((nonce, ciphertext))
}

/// Twelve bytes of nonce and an authentic ciphertext of a deflate stream open to
/// what the stream inflates to.
pub proof fn authentic_bytes_open(
    key: Seq<u8>,
    nonce: Seq<u8>,
    ciphertext: Seq<u8>,
    compressed: Seq<u8>,
    payload: Seq<u8>,
)
    requires
        nonce.len() == 12,
        ciphertext.len() <= 274_877_906_832,
        decrypted(key, nonce, ciphertext) == Some(compressed),
        inflated(compressed) == Some(payload),
    ensures
        opened(key, nonce + ciphertext) == Some(payload),
{
    let data = nonce + ciphertext;
    assert(nonce_of(data) =~= nonce);
    assert(ciphertext_of(data) =~= ciphertext);
}

/// Nothing else opens: what opens is a nonce and a ciphertext that is authentic
/// under the key and holds a deflate stream of the payload.
pub proof fn only_authentic_bytes_open(key: Seq<u8>, data: Seq<u8>, payload: Seq<u8>)
    requires
        opened(key, data) == Some(payload),
    ensures
        data.len() >= 12,
        decrypted(key, data.take(12), data.skip(12)) matches Some(compressed) && inflated(
            compressed,
        ) == Some(payload),
{
    assert(nonce_of(data) =~= data.take(12));
    assert(ciphertext_of(data) =~= data.skip(12));
}

/// The error tells why bytes do not open: too short for a nonce, not authentic,
/// or no deflate stream.
pub proof fn error_tells_why(key: Seq<u8>, data: Seq<u8>, error: AccelError)
    requires
        rejected_with(key, data, error),
    ensures
        error is FrameTooShort <==> data.len() < 12,
        error is TooLarge ==> 274_877_906_844 < data.len() < 274_877_906_908,
        12 <= data.len() <= 274_877_906_844 || data.len() >= 274_877_906_908 ==> match decrypted(
            key,
            data.take(12),
            data.skip(12),
        ) {
            None => error is Decrypt,
            Some(compressed) => error is Decompress && inflated(compressed) is None,
        },
{
    if data.len() >= 12 {
        assert(nonce_of(data) =~= data.take(12));
        assert(ciphertext_of(data) =~= data.skip(12));
    }
}

/// Every payload can be sealed whose deflate stream the cipher has keystream for
/// and the machine has room for, and its length grows by nonce and tag.
pub proof fn what_fits_is_sealed(plaintext: Seq<u8>, compressed: Seq<u8>)
    requires
        deflated(plaintext) == Some(compressed),
        compressed.len() <= 274_877_906_816,
        compressed.len() + 28 <= isize::MAX,
    ensures
        sealable(plaintext),
        sealed_len(plaintext) == compressed.len() + 28,
        !too_large(compressed.len()),
{
}

/// Sealing gives the nonce and then the ciphertext of the deflate stream, and
/// nothing else.
pub proof fn sealed_is_nonce_and_ciphertext(
    key: Seq<u8>,
    nonce: Seq<u8>,
    plaintext: Seq<u8>,
    compressed: Seq<u8>,
    ciphertext: Seq<u8>,
    res: Result<Vec<u8>, AccelError>,
)
    requires
        seal_outcome(key, nonce, plaintext, res),
        deflated(plaintext) == Some(compressed),
        encrypted(key, nonce, compressed) == Some(ciphertext),
        compressed.len() <= 274_877_906_816,
        compressed.len() + 28 <= isize::MAX,
    ensures
        res matches Ok(v) && v@ == nonce + ciphertext,
{
}

/// Sixteen bytes of tag are all that two byte strings may differ in, to differ
/// in the tag alone.
pub proof fn other_tag_differs_in_the_tag(body: Seq<u8>, tag: Seq<u8>, other: Seq<u8>)
    requires
        tag.len() == 16,
        other.len() == 16,
        tag != other,
    ensures
        only_tag_differs(body + tag, body + other),
{
    assert((body + tag).take(body.len() as int) =~= (body + other).take(body.len() as int));
    if body + tag == body + other {
        assert forall|i: int| 0 <= i < 16 implies tag[i] == other[i] by {
            assert((body + tag)[body.len() + i] == (body + other)[body.len() + i]);
        }
        assert(tag =~= other);
    }
}

/// The bytes of a result are those that it holds, and an error holds none.
pub proof fn results_hold_their_bytes<E>(v: Vec<u8>, e: E)
    ensures
        bytes_of(Ok::<Vec<u8>, E>(v)) == Some(v@),
        bytes_of(Err::<Vec<u8>, E>(e)) is None,
{
}

} // verus!
