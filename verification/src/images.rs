use vstd::prelude::*;

use crate::error::ParseError;
use crate::header::{be_u32_of, magic_of, read_header_part, IMAGE_FILE_MAGICNUMBER};
use vstd::arithmetic::div_mod::{lemma_div_multiples_vanish, lemma_div_nonincreasing,
    lemma_fundamental_div_mod};
use vstd::arithmetic::mul::lemma_mul_inequality;

verus! {

/// Loads the header and parses the main content of an image file.
#[derive(Debug, Default)]
pub struct ImageReader {
    image_count: usize,
    row_count: usize,
    column_count: usize,
}

/// The declared image count of an image stream: its second big-endian field.
pub open spec fn image_count_of(s: Seq<u8>) -> u32
    recommends
        s.len() >= 8,
{
    be_u32_of(s.subrange(4, 8))
}

/// The declared row count of an image stream: its third big-endian field.
pub open spec fn row_count_of(s: Seq<u8>) -> u32
    recommends
        s.len() >= 12,
{
    be_u32_of(s.subrange(8, 12))
}

/// The declared column count of an image stream: its fourth big-endian field.
pub open spec fn column_count_of(s: Seq<u8>) -> u32
    recommends
        s.len() >= 16,
{
    be_u32_of(s.subrange(12, 16))
}

/// The flat payload cut by exact chunking into consecutive images of `rows`
/// rows of `cols` pixels each, in source order: image `i`, row `j` holds the
/// payload bytes from `i·rows·cols + j·cols` on. Trailing bytes short of a
/// complete image are dropped.
pub open spec fn reshaped(payload: Seq<u8>, rows: nat, cols: nat) -> Seq<Seq<Seq<u8>>>
    recommends
        rows * cols > 0,
{
    Seq::new(
        payload.len() / (rows * cols),
        |i: int|
            Seq::new(
                rows,
                |j: int|
                    payload.subrange(
                        i * (rows * cols) as int + j * cols as int,
                        i * (rows * cols) as int + j * cols as int + cols as int,
                    ),
            ),
    )
}

/// What an image decode yields on any stream: a truncation failure under 4
/// bytes, a wrong-magic failure unless the stream opens with the image
/// magic number, a truncation failure under the full 16-byte header, and
/// otherwise the payload reshaped by exact chunking into complete images.
/// The declared image count is never checked against the payload length.
pub open spec fn image_parse_spec(s: Seq<u8>) -> Result<Seq<Seq<Seq<u8>>>, ParseError>
    recommends
        s.len() >= 16 && magic_of(s) == IMAGE_FILE_MAGICNUMBER ==> row_count_of(s)
            * column_count_of(s) != 0,
{
    if s.len() < 4 {
        Err(ParseError::TruncatedInput)
    } else if magic_of(s) != IMAGE_FILE_MAGICNUMBER {
        Err(ParseError::WrongMagic)
    } else if s.len() < 16 {
        Err(ParseError::TruncatedInput)
    } else {
        Ok(reshaped(s.skip(16), row_count_of(s) as nat, column_count_of(s) as nat))
    }
}

/// What a strict image decode yields: as the plain decode, except that a
/// payload whose length differs from image_count·row_count·column_count is
/// a length mismatch failure.
pub open spec fn image_parse_strict_spec(s: Seq<u8>) -> Result<Seq<Seq<Seq<u8>>>, ParseError>
    recommends
        s.len() >= 16 && magic_of(s) == IMAGE_FILE_MAGICNUMBER ==> row_count_of(s)
            * column_count_of(s) != 0,
{
    match image_parse_spec(s) {
        Ok(images) => if s.len() - 16 == image_count_of(s) * (row_count_of(s) * column_count_of(
            s,
        )) {
            Ok(images)
        } else {
            Err(ParseError::LengthMismatch)
        },
        Err(e) => Err(e),
    }
}

impl ImageReader {
    /// Loads the header fields that follow the magic number: the three
    /// dimension fields from `pos` on — image count, row count, column
    /// count.
    fn load(input: &[u8], pos: usize) -> (r: Result<ImageReader, ParseError>)
        requires
            pos + 12 <= usize::MAX,
        ensures
            pos + 12 <= input@.len() ==> (r matches Ok(h) && h.image_count == be_u32_of(
                input@.subrange(pos as int, pos + 4),
            ) as usize && h.row_count == be_u32_of(input@.subrange(pos + 4, pos + 8)) as usize
                && h.column_count == be_u32_of(input@.subrange(pos + 8, pos + 12)) as usize),
            pos + 12 > input@.len() ==> r == Err::<ImageReader, ParseError>(
                ParseError::TruncatedInput,
            ),
    {
        let image_count = match read_header_part(input, pos) {
            Ok(v) => v as usize,
            Err(e) => {
                return Err(e);
            },
        };
        let row_count = match read_header_part(input, pos + 4) {
            Ok(v) => v as usize,
            Err(e) => {
                return Err(e);
            },
        };
        let column_count = match read_header_part(input, pos + 8) {
            Ok(v) => v as usize,
            Err(e) => {
                return Err(e);
            },
        };
        Ok(ImageReader { image_count, row_count, column_count })
    }

    /// Decodes an image file: checks the magic number, loads the header,
    /// and reshapes the remaining bytes into images of `row_count` rows of
    /// `column_count` pixels each, dropping any trailing partial image.
    /// A stream whose header declares a zero row or column count is outside
    /// this decoder's domain: exact chunking has no zero-sized chunk.
    pub fn parse(input: &[u8]) -> (r: Result<Vec<Vec<Vec<u8>>>, ParseError>)
        requires
            input@.len() >= 16 && magic_of(input@) == IMAGE_FILE_MAGICNUMBER ==> row_count_of(
                input@,
            ) * column_count_of(input@) != 0,
        ensures
            match r {
                Ok(images) => image_parse_spec(input@) == Ok::<Seq<Seq<Seq<u8>>>, ParseError>(
                    images.deep_view(),
                ),
                Err(e) => image_parse_spec(input@) == Err::<Seq<Seq<Seq<u8>>>, ParseError>(e),
            },
    {
        let magic_number = match read_header_part(input, 0) {
            Ok(v) => v,
            Err(e) => {
                return Err(e);
            },
        };
        if magic_number != IMAGE_FILE_MAGICNUMBER {
            return Err(ParseError::WrongMagic);
        }
        let header = match Self::load(input, 4) {
            Ok(h) => h,
            Err(e) => {
                return Err(e);
            },
        };

        let rows = header.row_count;
        let cols = header.column_count;
        let ghost payload = input@.skip(16);
        proof {
            assert(input@.len() >= 16);
            assert(magic_of(input@) == IMAGE_FILE_MAGICNUMBER);
            assert(rows == row_count_of(input@) as usize);
            assert(cols == column_count_of(input@) as usize);
            assert(row_count_of(input@) * column_count_of(input@) != 0);
            assert((rows as int) * (cols as int) != 0) by {
                assert(rows as int == row_count_of(input@) as int);
                assert(cols as int == column_count_of(input@) as int);
            }
            assert(rows >= 1 && cols >= 1) by (nonlinear_arith)
                requires
                    (rows as int) * (cols as int) != 0,
            ;
            assert(1 <= (rows as int) * (cols as int) <= 0xFFFF_FFFF * 0xFFFF_FFFF)
                by (nonlinear_arith)
                requires
                    1 <= rows <= 0xFFFF_FFFF,
                    1 <= cols <= 0xFFFF_FFFF,
            ;
        }
        let chunk: u64 = (rows as u64) * (cols as u64);
        let n: usize = input.len() - 16;
        let count_wide: u64 = (n as u64) / chunk;
        proof {
            lemma_div_nonincreasing(n as int, chunk as int);
            assert(payload.len() == n);
        }
        let count: usize = count_wide as usize;

        let mut images: Vec<Vec<Vec<u8>>> = Vec::with_capacity(count);
        let mut i: usize = 0;
        let mut base: usize = 16;
        while i < count
            invariant
                0 <= i <= count,
                16 <= input@.len() <= usize::MAX,
                payload == input@.skip(16),
                1 <= rows <= 0xFFFF_FFFF,
                1 <= cols <= 0xFFFF_FFFF,
                1 <= chunk,
                chunk == (rows as int) * (cols as int),
                count == payload.len() as int / (chunk as int),
                base == 16 + i * (chunk as int),
                images@.len() == i,
                forall|ii: int|
                    0 <= ii < i ==> #[trigger] images@[ii].deep_view() == reshaped(
                        payload,
                        rows as nat,
                        cols as nat,
                    )[ii],
            decreases count - i,
        {
            proof {
                lemma_fundamental_div_mod(payload.len() as int, chunk as int);
                lemma_mul_inequality(i + 1, count as int, chunk as int);
                assert((chunk as int) * (count as int) == (count as int) * (chunk as int))
                    by (nonlinear_arith);
                assert((i + 1) * (chunk as int) == i * (chunk as int) + chunk) by (nonlinear_arith);
                assert(base + chunk <= input@.len());
            }
            let mut image: Vec<Vec<u8>> = Vec::with_capacity(rows);
            let mut off: usize = base;
            let mut j: usize = 0;
            while j < rows
                invariant
                    0 <= j <= rows,
                    1 <= cols,
                    chunk == (rows as int) * (cols as int),
                    base + chunk <= input@.len() <= usize::MAX,
                    off == base + j * (cols as int),
                    image@.len() == j,
                    forall|jj: int|
                        0 <= jj < j ==> #[trigger] image@[jj]@ == input@.subrange(
                            base + jj * (cols as int),
                            base + jj * (cols as int) + cols,
                        ),
                decreases rows - j,
            {
                proof {
                    lemma_mul_inequality(j + 1, rows as int, cols as int);
                    assert((j + 1) * (cols as int) == j * (cols as int) + cols)
                        by (nonlinear_arith);
                    assert(off + cols <= base + chunk);
                }
                let mut rowv: Vec<u8> = Vec::with_capacity(cols);
                let mut k: usize = 0;
                while k < cols
                    invariant
                        0 <= k <= cols,
                        off + cols <= input@.len() <= usize::MAX,
                        rowv@ == input@.subrange(off as int, off + k),
                    decreases cols - k,
                {
                    rowv.push(input[off + k]);
                    proof {
                        assert(input@.subrange(off as int, off + k + 1) =~= input@.subrange(
                            off as int,
                            off + k,
                        ).push(input@[off + k]));
                    }
                    k = k + 1;
                }
                proof {
                    let ghost jj = j as int;
                    assert(rowv@ == input@.subrange(
                        base + jj * (cols as int),
                        base + jj * (cols as int) + cols,
                    ));
                }
                image.push(rowv);
                j = j + 1;
                off = off + cols;
            }
            proof {
                let ghost r_i = reshaped(payload, rows as nat, cols as nat)[i as int];
                assert(i < payload.len() as int / (chunk as int));
                assert forall|jj: int| 0 <= jj < rows implies image@[jj].deep_view() == r_i[jj] by {
                    lemma_mul_inequality(jj + 1, rows as int, cols as int);
                    assert((jj + 1) * (cols as int) == jj * (cols as int) + cols)
                        by (nonlinear_arith);
                    let lo = i * (chunk as int) + jj * (cols as int);
                    assert(0 <= lo && lo + cols <= payload.len());
                    assert(payload.subrange(lo, lo + cols) =~= input@.subrange(
                        base + jj * (cols as int),
                        base + jj * (cols as int) + cols,
                    ));
                    assert(image@[jj].deep_view() =~= image@[jj]@);
                    assert(r_i[jj] == payload.subrange(lo, lo + cols));
                }
                assert(image.deep_view() =~= r_i);
            }
            images.push(image);
            i = i + 1;
            base = off;
            proof {
                assert(base == 16 + i * (chunk as int)) by (nonlinear_arith)
                    requires
                        base == 16 + (i - 1) * (chunk as int) + chunk,
                ;
            }
        }
        proof {
            let ghost result = reshaped(payload, rows as nat, cols as nat);
            assert(result.len() == payload.len() as int / (chunk as int));
            assert(images.deep_view() =~= result);
            assert(image_parse_spec(input@) == Ok::<Seq<Seq<Seq<u8>>>, ParseError>(
                images.deep_view(),
            ));
        }
        Ok(images)
    }

    /// Decodes an image file in strict-validation mode: as `parse`, except
    /// that a payload whose length is not exactly
    /// image_count·row_count·column_count fails with a length mismatch
    /// instead of being chunked as far as it goes.
    pub fn parse_strict(input: &[u8]) -> (r: Result<Vec<Vec<Vec<u8>>>, ParseError>)
        requires
            input@.len() >= 16 && magic_of(input@) == IMAGE_FILE_MAGICNUMBER ==> row_count_of(
                input@,
            ) * column_count_of(input@) != 0,
        ensures
            match r {
                Ok(images) => image_parse_strict_spec(input@) == Ok::<
                    Seq<Seq<Seq<u8>>>,
                    ParseError,
                >(images.deep_view()),
                Err(e) => image_parse_strict_spec(input@) == Err::<Seq<Seq<Seq<u8>>>, ParseError>(
                    e,
                ),
            },
    {
        let images = match Self::parse(input) {
            Ok(v) => v,
            Err(e) => {
                return Err(e);
            },
        };
        let header = match Self::load(input, 4) {
            Ok(h) => h,
            Err(e) => {
                return Err(e);
            },
        };
        proof {
            assert((header.row_count as int) * (header.column_count as int) <= 0xFFFF_FFFF
                * 0xFFFF_FFFF && (header.row_count as int) * (header.column_count as int) >= 0)
                by (nonlinear_arith)
                requires
                    0 <= header.row_count <= 0xFFFF_FFFF,
                    0 <= header.column_count <= 0xFFFF_FFFF,
            ;
        }
        let chunk_wide: u128 = (header.row_count as u128) * (header.column_count as u128);
        proof {
            assert((header.image_count as int) * (chunk_wide as int) <= 0xFFFF_FFFF * (0xFFFF_FFFF
                * 0xFFFF_FFFF) && (header.image_count as int) * (chunk_wide as int) >= 0)
                by (nonlinear_arith)
                requires
                    0 <= header.image_count <= 0xFFFF_FFFF,
                    0 <= chunk_wide <= 0xFFFF_FFFF * 0xFFFF_FFFF,
            ;
        }
        let declared: u128 = (header.image_count as u128) * chunk_wide;
        if (input.len() - 16) as u128 == declared {
            Ok(images)
        } else {
            Err(ParseError::LengthMismatch)
        }
    }
}

/// Law: exact chunking keeps only complete images — the payload yields
/// floor(len / (rows·cols)) of them, every one with exactly `rows` rows of
/// exactly `cols` pixels, and pixel (i, j, k) is the payload byte at the
/// row-major position i·rows·cols + j·cols + k. Trailing bytes short of a
/// complete image appear nowhere in the result.
pub proof fn lemma_reshaped_shape(payload: Seq<u8>, rows: nat, cols: nat)
    requires
        rows * cols > 0,
    ensures
        reshaped(payload, rows, cols).len() == payload.len() as int / (rows * cols) as int,
        forall|i: int|
            0 <= i < reshaped(payload, rows, cols).len() ==> #[trigger] reshaped(
                payload,
                rows,
                cols,
            )[i].len() == rows,
        forall|i: int, j: int|
            0 <= i < reshaped(payload, rows, cols).len() && 0 <= j < rows ==> #[trigger] reshaped(
                payload,
                rows,
                cols,
            )[i][j].len() == cols,
        forall|i: int, j: int, k: int|
            0 <= i < reshaped(payload, rows, cols).len() && 0 <= j < rows && 0 <= k < cols
                ==> #[trigger] reshaped(payload, rows, cols)[i][j][k] == payload[i * (rows
                * cols) as int + j * cols as int + k],
{
    let chunk = (rows * cols) as int;
    let n = payload.len() as int;
    let total = n / chunk;
    assert forall|i: int, j: int|
        0 <= i < total && 0 <= j < rows implies #[trigger] reshaped(payload, rows, cols)[i][j]
        == payload.subrange(i * chunk + j * cols as int, i * chunk + j * cols as int + cols as int)
        && 0 <= i * chunk + j * cols as int && i * chunk + j * cols as int + cols
        <= payload.len() by {
        lemma_fundamental_div_mod(n, chunk);
        lemma_mul_inequality(i + 1, total, chunk);
        assert(chunk * total == total * chunk) by (nonlinear_arith);
        assert((i + 1) * chunk == i * chunk + chunk) by (nonlinear_arith);
        lemma_mul_inequality(j + 1, rows as int, cols as int);
        assert((j + 1) * cols as int == j * cols as int + cols) by (nonlinear_arith);
        assert(i * chunk >= 0 && j * cols as int >= 0) by (nonlinear_arith)
            requires
                i >= 0 && j >= 0 && chunk >= 0 && cols >= 0,
        ;
    }
}

/// Law: when the payload length is exactly image_count·rows·cols, exact
/// chunking yields exactly image_count images.
pub proof fn lemma_reshaped_exact_count(payload: Seq<u8>, image_count: nat, rows: nat, cols: nat)
    requires
        rows * cols > 0,
        payload.len() == image_count * (rows * cols),
    ensures
        reshaped(payload, rows, cols).len() == image_count,
{
    let chunk = (rows * cols) as int;
    lemma_div_multiples_vanish(image_count as int, chunk);
    assert(chunk * image_count as int == image_count as int * chunk) by (nonlinear_arith);
}

/// Law: a well-formed image stream whose payload length is exactly
/// image_count·row_count·column_count decodes without loss — exactly
/// image_count images come back, each of row_count rows of column_count
/// pixels, and every pixel equals its row-major source byte.
pub proof fn lemma_image_parse_exact(s: Seq<u8>)
    requires
        s.len() >= 16,
        magic_of(s) == IMAGE_FILE_MAGICNUMBER,
        row_count_of(s) * column_count_of(s) != 0,
        s.len() - 16 == image_count_of(s) * (row_count_of(s) * column_count_of(s)),
    ensures
        image_parse_spec(s) matches Ok(images) && images.len() == image_count_of(s) && (forall|
            i: int,
        |
            0 <= i < images.len() ==> #[trigger] images[i].len() == row_count_of(s)) && (forall|
            i: int,
            j: int,
        |
            0 <= i < images.len() && 0 <= j < row_count_of(s) ==> #[trigger] images[i][j].len()
                == column_count_of(s)) && (forall|i: int, j: int, k: int|
            0 <= i < images.len() && 0 <= j < row_count_of(s) && 0 <= k < column_count_of(s)
                ==> #[trigger] images[i][j][k] == s[16 + i * (row_count_of(s) * column_count_of(s))
                + j * column_count_of(s) + k]),
{
    let payload = s.skip(16);
    let rows = row_count_of(s) as nat;
    let cols = column_count_of(s) as nat;
    let chunk = (rows * cols) as int;
    lemma_reshaped_shape(payload, rows, cols);
    lemma_reshaped_exact_count(payload, image_count_of(s) as nat, rows, cols);
    let images = reshaped(payload, rows, cols);
    assert(image_parse_spec(s) == Ok::<Seq<Seq<Seq<u8>>>, ParseError>(images));
    assert forall|i: int, j: int, k: int|
        0 <= i < images.len() && 0 <= j < rows && 0 <= k < cols implies #[trigger] images[i][j][k]
        == s[16 + i * chunk + j * cols as int + k] by {
        lemma_fundamental_div_mod(payload.len() as int, chunk);
        lemma_mul_inequality(i + 1, images.len() as int, chunk);
        assert(chunk * (images.len() as int) == (images.len() as int) * chunk)
            by (nonlinear_arith);
        assert((i + 1) * chunk == i * chunk + chunk) by (nonlinear_arith);
        lemma_mul_inequality(j + 1, rows as int, cols as int);
        assert((j + 1) * cols as int == j * cols as int + cols) by (nonlinear_arith);
        assert(i * chunk >= 0 && j * cols as int >= 0) by (nonlinear_arith)
            requires
                i >= 0 && j >= 0 && chunk >= 0 && cols >= 0,
        ;
        let idx = i * chunk + j * cols as int + k;
        assert(images[i][j][k] == payload[idx]);
        assert(payload[idx] == s[idx + 16]);
    }
}

/// Law: a complete image header never fails on payload length — a payload
/// that is not a whole number of images yields floor(payload_len /
/// (row_count·column_count)) images and no error, the partial remainder
/// silently dropped.
pub proof fn lemma_image_partial_payload_dropped(s: Seq<u8>)
    requires
        s.len() >= 16,
        magic_of(s) == IMAGE_FILE_MAGICNUMBER,
        row_count_of(s) * column_count_of(s) != 0,
    ensures
        image_parse_spec(s) matches Ok(images) && images.len() == (s.len() - 16) / (row_count_of(s)
            * column_count_of(s)),
{
    lemma_reshaped_shape(s.skip(16), row_count_of(s) as nat, column_count_of(s) as nat);
}

/// Law: a stream that does not open with the image magic number is
/// rejected as the wrong file kind whenever the magic field itself is
/// complete — whatever the bytes beyond that field hold.
pub proof fn lemma_image_wrong_magic_rejected(s: Seq<u8>)
    requires
        s.len() >= 4,
        magic_of(s) != IMAGE_FILE_MAGICNUMBER,
    ensures
        image_parse_spec(s) == Err::<Seq<Seq<Seq<u8>>>, ParseError>(ParseError::WrongMagic),
{
}

/// Law: a stream shorter than 4 bytes, or one with the right magic number
/// but shorter than the full 16-byte header, is rejected as truncated —
/// never answered with a partial header.
pub proof fn lemma_image_truncation_rejected(s: Seq<u8>)
    requires
        s.len() < 4 || (magic_of(s) == IMAGE_FILE_MAGICNUMBER && s.len() < 16),
    ensures
        image_parse_spec(s) == Err::<Seq<Seq<Seq<u8>>>, ParseError>(ParseError::TruncatedInput),
{
}

/// Law: an image decode is a function of the input bytes alone — any two
/// results its contract admits for the same stream are equal.
pub proof fn lemma_image_parse_deterministic(
    s: Seq<u8>,
    r1: Result<Seq<Seq<Seq<u8>>>, ParseError>,
    r2: Result<Seq<Seq<Seq<u8>>>, ParseError>,
)
    requires
        r1 == image_parse_spec(s),
        r2 == image_parse_spec(s),
    ensures
        r1 == r2,
{
}

} // verus!
