use vstd::prelude::*;
use crate::error::Error;

verus! {

/// The gzip encoding of `data`, as the flate2 encoder at the default
/// compression level and with the default header produces it.
pub uninterp spec fn gzip_of(data: Seq<u8>) -> Seq<u8>;

/// What a gzip decoder recovers from `data`: the decompressed payload of a
/// well-formed stream, nothing for a malformed or truncated one.
pub uninterp spec fn gunzip_of(data: Seq<u8>) -> Option<Seq<u8>>;

/// Relies on flate2::write::GzEncoder at the default compression level: the
/// compressed stream is a function of the input bytes alone (the default
/// header carries no timestamp, name or comment), and a gzip decoder
/// recovers the input bytes from it. The encoder's explicit finish step
/// completes the trailer before the buffer is handed back. Writing into a
/// Vec cannot fail.
#[verifier::external_body]
fn gzip_compress(data: &Vec<u8>) -> (r: Vec<u8>)
    ensures
        r@ == gzip_of(data@),
        gunzip_of(r@) == Option::Some(data@),
{
    let mut encoder = flate2::write::GzEncoder::new(Vec::new(), flate2::Compression::default());
    std::io::Write::write_all(&mut encoder, data.as_slice()).expect(
        "writing to a Vec cannot fail",
    );
    encoder.finish().expect("writing to a Vec cannot fail")
}

/// Relies on flate2::read::GzDecoder: decodes one gzip member from the
/// input bytes alone; a malformed or truncated stream is an error.
#[verifier::external_body]
fn gzip_decompress(data: &Vec<u8>) -> (r: Option<Vec<u8>>)
    ensures
        (r is Some) == (gunzip_of(data@) is Some),
        r is Some ==> Option::Some(r->0@) == gunzip_of(data@),
{
    let mut decoder = flate2::read::GzDecoder::new(data.as_slice());
    let mut out = Vec::new();
    match std::io::Read::read_to_end(&mut decoder, &mut out) {
        Ok(_) => Some(out),
        Err(_) => None,
    }
}

/// Compresses an XML payload into container bytes. The transcode is
/// reversible: decompressing the result yields the payload again.
pub fn compress(xml: &Vec<u8>) -> (r: Vec<u8>)
    ensures
        r@ == gzip_of(xml@),
        gunzip_of(r@) == Option::Some(xml@),
{
    gzip_compress(xml)
}

/// Decompresses one container's bytes to its XML payload. Fails exactly on
/// a malformed or truncated compressed stream, and on nothing else.
pub fn decompress(container: &Vec<u8>) -> (r: Result<Vec<u8>, Error>)
    ensures
        (r is Ok) == (gunzip_of(container@) is Some),
        r is Ok ==> Option::Some(r->Ok_0@) == gunzip_of(container@),
        r is Err ==> r->Err_0 is TranscodeFailed,
{
    match gzip_decompress(container) {
        Option::Some(v) => Ok(v),
        Option::None => Err(
            Error::TranscodeFailed("Malformed or truncated compressed stream".to_owned()),
        ),
    }
}

/// The container transcode round trip: decoding what encoding produced
/// yields the original payload back, byte for byte, for every payload.
pub fn transcode_round_trip(xml: &Vec<u8>) -> (r: Vec<u8>)
    ensures
        r@ == xml@,
{
    let container = compress(xml);
    match decompress(&container) {
        Ok(v) => v,
        Err(_) => {
            proof {
                assert(false);
            }
            vstd::pervasive::unreached()
        },
    }
}

} // verus!
