//! Prometheus remote write requests: decompression and decoding.
use vstd::prelude::*;

verus! {

/// The error of Snappy decompression.
#[verifier::external_type_specification]
#[verifier::external_body]
pub struct ExSnapError(snap::Error);

/// The error of Zstandard decompression.
#[verifier::external_type_specification]
#[verifier::external_body]
pub struct ExIoError(std::io::Error);

/// What Snappy makes of bytes: what they decompress to, or why they are not
/// Snappy data.
pub uninterp spec fn snappy_decoded(input: Seq<u8>) -> Result<Seq<u8>, snap::Error>;

/// What Zstandard makes of bytes: what they decompress to, or why they are not
/// Zstandard frames.
pub uninterp spec fn zstd_decoded(input: Seq<u8>) -> Result<Seq<u8>, std::io::Error>;

/// An outcome with the bytes as a sequence.
pub open spec fn outcome_view<E>(outcome: Result<Vec<u8>, E>) -> Result<Seq<u8>, E> {
    match outcome {
        Ok(bytes) => Ok(bytes@),
        Err(error) => Err(error),
    }
}

/// `snap::raw::Decoder::decompress_vec`: what the bytes decompress to or why
/// they do not, which depends on them alone.
#[verifier::external_body]
fn snappy_decompress_vec(input: &[u8]) -> (outcome: Result<Vec<u8>, snap::Error>)
    ensures
        outcome_view(outcome) == snappy_decoded(input@),
{
    snap::raw::Decoder::new().decompress_vec(input)
}

/// `zstd::stream::decode_all`: what the bytes decompress to or why they do not,
/// which depends on them alone.
#[verifier::external_body]
fn zstd_decode_all(input: &[u8]) -> (outcome: Result<Vec<u8>, std::io::Error>)
    ensures
        outcome_view(outcome) == zstd_decoded(input@),
{
    zstd::stream::decode_all(input)
}

/// Why a request could not be decompressed.
#[derive(Debug)]
pub enum DecompressError {
    /// The request is not Snappy data.
    DecompressSnappyPromRemoteRequest(snap::Error),
    /// The request is not Zstandard data.
    DecompressZstdPromRemoteRequest(std::io::Error),
}

/// Why a request could not be decoded. `E` is the error of the decoder.
#[derive(Debug)]
pub enum DecodeError<E> {
    /// The request could not be decompressed.
    Decompress(DecompressError),
    /// The decompressed request could not be decoded.
    DecodePromRemoteRequest(E),
}

/// Reports the outcome of Snappy decompression.
pub fn snappy_outcome(outcome: Result<Vec<u8>, snap::Error>) -> (result: Result<
    Vec<u8>,
    DecompressError,
>)
    ensures
        result == match outcome {
            Ok(bytes) => Ok::<Vec<u8>, DecompressError>(bytes),
            Err(error) => Err(DecompressError::DecompressSnappyPromRemoteRequest(error)),
        },
{
    match outcome {
        Ok(bytes) => Ok(bytes),
        Err(error) => Err(DecompressError::DecompressSnappyPromRemoteRequest(error)),
    }
}

/// Reports the outcome of Zstandard decompression.
pub fn zstd_outcome(outcome: Result<Vec<u8>, std::io::Error>) -> (result: Result<
    Vec<u8>,
    DecompressError,
>)
    ensures
        result == match outcome {
            Ok(bytes) => Ok::<Vec<u8>, DecompressError>(bytes),
            Err(error) => Err(DecompressError::DecompressZstdPromRemoteRequest(error)),
        },
{
    match outcome {
        Ok(bytes) => Ok(bytes),
        Err(error) => Err(DecompressError::DecompressZstdPromRemoteRequest(error)),
    }
}

/// What a body decompresses to with the one method or the other, or that
/// method's error.
pub open spec fn decompressed(is_zstd: bool, body: Seq<u8>) -> Result<Seq<u8>, DecompressError> {
    if is_zstd {
        match zstd_decoded(body) {
            Ok(bytes) => Ok(bytes),
            Err(error) => Err(DecompressError::DecompressZstdPromRemoteRequest(error)),
        }
    } else {
        match snappy_decoded(body) {
            Ok(bytes) => Ok(bytes),
            Err(error) => Err(DecompressError::DecompressSnappyPromRemoteRequest(error)),
        }
    }
}

/// Decompresses a body with Zstandard or with Snappy.
pub fn try_decompress(is_zstd: bool, body: &[u8]) -> (result: Result<Vec<u8>, DecompressError>)
    ensures
        outcome_view(result) == decompressed(is_zstd, body@),
        is_zstd ==> match result {
            Ok(bytes) => zstd_decoded(body@) == Ok::<Seq<u8>, std::io::Error>(bytes@),
            Err(DecompressError::DecompressZstdPromRemoteRequest(error)) => zstd_decoded(body@)
                == Err::<Seq<u8>, std::io::Error>(error),
            Err(DecompressError::DecompressSnappyPromRemoteRequest(_)) => false,
        },
        !is_zstd ==> match result {
            Ok(bytes) => snappy_decoded(body@) == Ok::<Seq<u8>, snap::Error>(bytes@),
            Err(DecompressError::DecompressSnappyPromRemoteRequest(error)) => snappy_decoded(body@)
                == Err::<Seq<u8>, snap::Error>(error),
            Err(DecompressError::DecompressZstdPromRemoteRequest(_)) => false,
        },
{
    if is_zstd {
        zstd_outcome(zstd_decode_all(body))
    } else {
        snappy_outcome(snappy_decompress_vec(body))
    }
}

/// What a body decompresses to with the method that its sender named, or else
/// with the other method, or the error of the other method.
pub open spec fn decompressed_either_way(is_zstd: bool, body: Seq<u8>) -> Result<
    Seq<u8>,
    DecompressError,
> {
    match decompressed(is_zstd, body) {
        Ok(bytes) => Ok(bytes),
        Err(_) => decompressed(!is_zstd, body),
    }
}

/// Keeps the first outcome if it is a success, and otherwise tries the fallback.
pub fn or_fallback<T, E, F: FnOnce() -> Result<T, E>>(first: Result<T, E>, fallback: F) -> (result:
    Result<T, E>)
    requires
        first is Err ==> call_requires(fallback, ()),
    ensures
        match first {
            Ok(value) => result == Ok::<T, E>(value),
            Err(_) => call_ensures(fallback, (), result),
        },
{
    match first {
        Ok(value) => Ok(value),
        Err(_) => fallback(),
    }
}

/// Decompresses a body with the method that its sender named, and with the
/// other method where that fails: a sender may name the wrong one. The error is
/// that of the other method.
pub fn decompress_with_fallback(is_zstd: bool, body: &[u8]) -> (result: Result<
    Vec<u8>,
    DecompressError,
>)
    ensures
        outcome_view(result) == decompressed_either_way(is_zstd, body@),
        match result {
            Ok(bytes) => if is_zstd && zstd_decoded(body@) is Ok || snappy_decoded(body@) is Err {
                zstd_decoded(body@) == Ok::<Seq<u8>, std::io::Error>(bytes@)
            } else {
                snappy_decoded(body@) == Ok::<Seq<u8>, snap::Error>(bytes@)
            },
            Err(DecompressError::DecompressSnappyPromRemoteRequest(error)) => is_zstd
                && zstd_decoded(body@) is Err && snappy_decoded(body@) == Err::<
                Seq<u8>,
                snap::Error,
            >(error),
            Err(DecompressError::DecompressZstdPromRemoteRequest(error)) => !is_zstd
                && snappy_decoded(body@) is Err && zstd_decoded(body@) == Err::<
                Seq<u8>,
                std::io::Error,
            >(error),
        },
{
    let fallback = || -> (second: Result<Vec<u8>, DecompressError>)
        ensures
            outcome_view(second) == decompressed(!is_zstd, body@),
        {
            try_decompress(!is_zstd, body)
        };
    or_fallback(try_decompress(is_zstd, body), fallback)
}

/// Decodes a remote write request: decompresses its body and hands the bytes to
/// `decode`.
///
/// A body that the named method does not decompress is tried with the other.
pub fn decode_remote_write_request<T, E, D: FnOnce(Vec<u8>) -> Result<T, E>>(
    is_zstd: bool,
    body: &[u8],
    decode: D,
) -> (result: Result<T, DecodeError<E>>)
    requires
        forall|bytes: Vec<u8>| #[trigger] call_requires(decode, (bytes,)),
    ensures
        match decompressed_either_way(is_zstd, body@) {
            Ok(bytes) => exists|buf: Vec<u8>, decoded: Result<T, E>|
                {
                    &&& #[trigger] call_ensures(decode, (buf,), decoded)
                    &&& buf@ == bytes
                    &&& result == match decoded {
                        Ok(value) => Ok::<T, DecodeError<E>>(value),
                        Err(error) => Err(DecodeError::DecodePromRemoteRequest(error)),
                    }
                },
            Err(error) => result == Err::<T, DecodeError<E>>(DecodeError::Decompress(error)),
        },
        !(result matches Err(DecodeError::Decompress(_))) ==> exists|
            buf: Vec<u8>,
            decoded: Result<T, E>,
        |
            {
                &&& #[trigger] call_ensures(decode, (buf,), decoded)
                &&& decoded matches Ok(value) ==> result == Ok::<T, DecodeError<E>>(value)
                &&& decoded matches Err(error) ==> result == Err::<T, DecodeError<E>>(
                    DecodeError::DecodePromRemoteRequest(error),
                )
                &&& if is_zstd && zstd_decoded(body@) is Ok || snappy_decoded(body@) is Err {
                    zstd_decoded(body@) == Ok::<Seq<u8>, std::io::Error>(buf@)
                } else {
                    snappy_decoded(body@) == Ok::<Seq<u8>, snap::Error>(buf@)
                }
            },
        result matches Err(
            DecodeError::Decompress(DecompressError::DecompressSnappyPromRemoteRequest(error)),
        ) ==> is_zstd && zstd_decoded(body@) is Err && snappy_decoded(body@) == Err::<
            Seq<u8>,
            snap::Error,
        >(error),
        result matches Err(
            DecodeError::Decompress(DecompressError::DecompressZstdPromRemoteRequest(error)),
        ) ==> !is_zstd && snappy_decoded(body@) is Err && zstd_decoded(body@) == Err::<
            Seq<u8>,
            std::io::Error,
        >(error),
{
    let buf = match decompress_with_fallback(is_zstd, body) {
        Ok(buf) => buf,
        Err(error) => {
            return Err(DecodeError::Decompress(error));
        },
    };
    let ghost given = buf;
    let decoded = decode(buf);
    assert(call_ensures(decode, (given,), decoded));
    match decoded {
        Ok(value) => Ok(value),
        Err(error) => Err(DecodeError::DecodePromRemoteRequest(error)),
    }
}

/// What a body decompresses to with a method is what the decompressor of that
/// method makes of it, byte for byte, and its error is that decompressor's.
pub proof fn law_decompressed_as_it_is(
    body: Seq<u8>,
    bytes: Seq<u8>,
    snappy_error: snap::Error,
    zstd_error: std::io::Error,
)
    ensures
        decompressed(false, body) == Ok::<Seq<u8>, DecompressError>(bytes) <==> snappy_decoded(body)
            == Ok::<Seq<u8>, snap::Error>(bytes),
        decompressed(true, body) == Ok::<Seq<u8>, DecompressError>(bytes) <==> zstd_decoded(body)
            == Ok::<Seq<u8>, std::io::Error>(bytes),
        decompressed(false, body) == Err::<Seq<u8>, DecompressError>(
            DecompressError::DecompressSnappyPromRemoteRequest(snappy_error),
        ) <==> snappy_decoded(body) == Err::<Seq<u8>, snap::Error>(snappy_error),
        decompressed(true, body) == Err::<Seq<u8>, DecompressError>(
            DecompressError::DecompressZstdPromRemoteRequest(zstd_error),
        ) <==> zstd_decoded(body) == Err::<Seq<u8>, std::io::Error>(zstd_error),
{
}

/// The bytes of a request are what one of the two decompressors makes of its
/// body: the named one's if it makes anything of it, and otherwise the other's.
pub proof fn law_bytes_are_a_decompressors(body: Seq<u8>, bytes: Seq<u8>)
    ensures
        decompressed_either_way(true, body) == Ok::<Seq<u8>, DecompressError>(bytes) <==> {
            ||| zstd_decoded(body) == Ok::<Seq<u8>, std::io::Error>(bytes)
            ||| zstd_decoded(body) is Err && snappy_decoded(body) == Ok::<Seq<u8>, snap::Error>(
                bytes,
            )
        },
        decompressed_either_way(false, body) == Ok::<Seq<u8>, DecompressError>(bytes) <==> {
            ||| snappy_decoded(body) == Ok::<Seq<u8>, snap::Error>(bytes)
            ||| snappy_decoded(body) is Err && zstd_decoded(body) == Ok::<
                Seq<u8>,
                std::io::Error,
            >(bytes)
        },
{
}

/// A request whose body only one method decompresses is decompressed with it,
/// whichever method its sender named.
pub proof fn law_wrong_method_does_not_matter(body: Seq<u8>)
    requires
        decompressed(true, body) is Ok != decompressed(false, body) is Ok,
    ensures
        decompressed_either_way(true, body) is Ok,
        decompressed_either_way(true, body) == decompressed_either_way(false, body),
{
}

/// A body that the named method decompresses is decompressed with it.
pub proof fn law_named_method_comes_first(is_zstd: bool, body: Seq<u8>)
    requires
        decompressed(is_zstd, body) is Ok,
    ensures
        decompressed_either_way(is_zstd, body) == decompressed(is_zstd, body),
{
}

/// A body cannot be decompressed exactly if neither method decompresses it, and
/// the error is that of the method that was not named.
pub proof fn law_fails_only_if_both_fail(is_zstd: bool, body: Seq<u8>)
    ensures
        decompressed_either_way(is_zstd, body) is Err <==> decompressed(true, body) is Err
            && decompressed(false, body) is Err,
        decompressed_either_way(is_zstd, body) is Err ==> decompressed_either_way(is_zstd, body)
            == decompressed(!is_zstd, body),
{
}

} // verus!
