//! The sinks of the recorder: raw frames for a video encoder process, PNG
//! files for screenshots.

use crate::capture::Orientation;
use crate::geometry::Size;
use crate::text::{decimal, push_decimal, push_text, texts};
use vstd::prelude::*;

verus! {

/// How many frames can wait for the encoder before new ones are dropped. Small,
/// so that an encoder that falls behind costs frames and not memory.
pub const WRITER_QUEUE_DEPTH: usize = 3;

/// Why an encoder is not started.
#[derive(Debug, Clone, Copy, PartialEq, Eq, Structural)]
pub enum EncoderRefusal {
    NonPositiveSize(Size),
    ZeroFps,
}

/// Why a frame is not taken.
#[derive(Debug, Clone, Copy, PartialEq, Eq, Structural)]
pub enum PushError {
    /// The frame has another byte count than the encoder expects.
    ByteCount { got: usize, expected: usize },
    /// The encoder was closed.
    Closed,
    /// The encoder's writer is gone.
    WriterDied,
}

/// What handing a frame to the writer gave.
#[derive(Debug, Clone, Copy, PartialEq, Eq, Structural)]
pub enum SendOutcome {
    Queued,
    Full,
    Disconnected,
}

/// What an encoder is checked against and counts. The process itself is the
/// event loop's.
#[derive(Debug, Clone, Copy, PartialEq, Eq, Structural)]
pub struct VideoEncoder {
    pub size: Size,
    pub fps: u32,
    pub bytes_per_frame: usize,
    pub dropped_frames: u64,
    pub open: bool,
}

/// The command line of the encoder process: raw frames on its standard input,
/// turned upright and padded to even sides, into the file at `path`.
pub open spec fn encoder_command(path: Seq<char>, size: Size, fps: u32) -> Seq<Seq<char>> {
    seq![
        "-y"@,
        "-loglevel"@,
        "warning"@,
        "-f"@,
        "rawvideo"@,
        "-pixel_format"@,
        "rgba"@,
        "-video_size"@,
        decimal(size.w as nat) + seq!['x'] + decimal(size.h as nat),
        "-framerate"@,
        decimal(fps as nat),
        "-i"@,
        "pipe:0"@,
        "-c:v"@,
        "libx264"@,
        "-preset"@,
        "ultrafast"@,
        "-pix_fmt"@,
        "yuv420p"@,
        "-vf"@,
        "vflip,pad=ceil(iw/2)*2:ceil(ih/2)*2"@,
        path,
    ]
}

impl VideoEncoder {
    /// An encoder for frames of the given size and rate, and the arguments to
    /// start its process with.
    pub fn spawn(path: &str, size: Size, fps: u32) -> (r: Result<
        (VideoEncoder, Vec<String>),
        EncoderRefusal,
    >)
        requires
            size.w > 0 && size.h > 0 ==> size.w * size.h * 4 <= usize::MAX,
        ensures
            match r {
                Ok((encoder, args)) => {
                    &&& size.w > 0 && size.h > 0 && fps > 0
                    &&& encoder == (VideoEncoder {
                        size,
                        fps,
                        bytes_per_frame: (size.w * size.h * 4) as usize,
                        dropped_frames: 0,
                        open: true,
                    })
                    &&& texts(args@) == encoder_command(path@, size, fps)
                },
                Err(e) => if size.w <= 0 || size.h <= 0 {
                    e == EncoderRefusal::NonPositiveSize(size)
                } else {
                    fps == 0 && e == EncoderRefusal::ZeroFps
                },
            },
    {
        if size.w <= 0 || size.h <= 0 {
            return Err(EncoderRefusal::NonPositiveSize(size));
        }
        if fps == 0 {
            return Err(EncoderRefusal::ZeroFps);
        }
        assert(size.w * size.h <= size.w * size.h * 4);
        assert(0 <= size.w * size.h) by (nonlinear_arith)
            requires
                size.w > 0,
                size.h > 0,
        ;
        let pixels: usize = size.w as usize * size.h as usize;
        let encoder = VideoEncoder {
            size,
            fps,
            bytes_per_frame: pixels * 4,
            dropped_frames: 0,
            open: true,
        };
        let mut video_size = String::new();
        push_decimal(&mut video_size, size.w as u64);
        video_size.push('x');
        push_decimal(&mut video_size, size.h as u64);
        let mut rate = String::new();
        push_decimal(&mut rate, fps as u64);
        proof {
            assert(video_size@ =~= decimal(size.w as nat) + seq!['x'] + decimal(size.h as nat));
            assert(rate@ =~= decimal(fps as nat));
        }
        let mut args: Vec<String> = Vec::new();
        push_text(&mut args, "-y");
        push_text(&mut args, "-loglevel");
        push_text(&mut args, "warning");
        push_text(&mut args, "-f");
        push_text(&mut args, "rawvideo");
        push_text(&mut args, "-pixel_format");
        push_text(&mut args, "rgba");
        push_text(&mut args, "-video_size");
        push_text(&mut args, video_size.as_str());
        push_text(&mut args, "-framerate");
        push_text(&mut args, rate.as_str());
        push_text(&mut args, "-i");
        push_text(&mut args, "pipe:0");
        push_text(&mut args, "-c:v");
        push_text(&mut args, "libx264");
        push_text(&mut args, "-preset");
        push_text(&mut args, "ultrafast");
        push_text(&mut args, "-pix_fmt");
        push_text(&mut args, "yuv420p");
        push_text(&mut args, "-vf");
        push_text(&mut args, "vflip,pad=ceil(iw/2)*2:ceil(ih/2)*2");
        push_text(&mut args, path);
        assert(texts(args@) =~= encoder_command(path@, size, fps));
        Ok((encoder, args))
    }

    /// Whether a frame of `len` bytes can be handed to the writer.
    pub fn accepts(&self, len: usize) -> (r: Result<(), PushError>)
        ensures
            r == if len != self.bytes_per_frame {
                Err::<(), PushError>(
                    PushError::ByteCount { got: len, expected: self.bytes_per_frame },
                )
            } else if !self.open {
                Err::<(), PushError>(PushError::Closed)
            } else {
                Ok::<(), PushError>(())
            },
    {
        if len != self.bytes_per_frame {
            return Err(PushError::ByteCount { got: len, expected: self.bytes_per_frame });
        }
        if !self.open {
            return Err(PushError::Closed);
        }
        Ok(())
    }

    /// Takes what handing a frame to the writer gave. A full queue drops the
    /// frame and is no error: the render loop must not wait for the encoder.
    pub fn push_frame(&mut self, sent: SendOutcome) -> (r: Result<(), PushError>)
        requires
            old(self).dropped_frames < u64::MAX,
        ensures
            r == if sent is Disconnected {
                Err::<(), PushError>(PushError::WriterDied)
            } else {
                Ok::<(), PushError>(())
            },
            *final(self) == (VideoEncoder {
                dropped_frames: if sent is Full {
                    (old(self).dropped_frames + 1) as u64
                } else {
                    old(self).dropped_frames
                },
                ..*old(self)
            }),
    {
        match sent {
            SendOutcome::Queued => Ok(()),
            SendOutcome::Full => {
                self.dropped_frames = self.dropped_frames + 1;
                Ok(())
            },
            SendOutcome::Disconnected => Err(PushError::WriterDied),
        }
    }

    /// Closes the encoder: no frame is taken any more.
    pub fn finish(&mut self)
        ensures
            *final(self) == (VideoEncoder { open: false, ..*old(self) }),
    {
        self.open = false;
    }
}

// ---------------------------------------------------------------------------
// Screenshots
// ---------------------------------------------------------------------------

/// Row `y` of an image with `stride` bytes per row.
pub open spec fn row(bytes: Seq<u8>, stride: int, y: int) -> Seq<u8> {
    bytes.subrange(y * stride, (y + 1) * stride)
}

/// The first `n` rows from the bottom of an image of `height` rows.
pub open spec fn rows_upward(bytes: Seq<u8>, stride: int, height: int, n: int) -> Seq<u8>
    decreases n,
{
    if n <= 0 {
        seq![]
    } else {
        rows_upward(bytes, stride, height, n - 1) + row(bytes, stride, height - n)
    }
}

/// The pixels with the top row first. Bytes behind the last row become zero.
pub open spec fn upright(
    bytes: Seq<u8>,
    width: u32,
    height: u32,
    orientation: Orientation,
) -> Seq<u8> {
    match orientation {
        Orientation::TopDown => bytes,
        Orientation::BottomUp => {
            let rows = rows_upward(bytes, width * 4, height as int, height as int);
            rows + Seq::new((bytes.len() - rows.len()) as nat, |i: int| 0u8)
        },
    }
}

/// So many rows take so many bytes.
proof fn lemma_rows_len(bytes: Seq<u8>, stride: int, height: int, n: int)
    requires
        0 <= n <= height,
        0 <= stride,
        stride * height <= bytes.len(),
    ensures
        rows_upward(bytes, stride, height, n).len() == n * stride,
    decreases n,
{
    if n > 0 {
        lemma_rows_len(bytes, stride, height, n - 1);
        let y = height - n;
        assert(0 <= y * stride && (y + 1) * stride == y * stride + stride && (y + 1) * stride
            <= stride * height && n * stride == (n - 1) * stride + stride) by (nonlinear_arith)
            requires
                0 <= y < height,
                0 <= stride,
        ;
    } else {
        assert(0 * stride == 0);
    }
}

/// Turns a captured frame so that its top row is first.
pub fn turn_upright(bytes: &[u8], width: u32, height: u32, orientation: Orientation) -> (r: Vec<u8>)
    requires
        orientation is BottomUp ==> width * 4 * height <= bytes@.len(),
    ensures
        r@ == upright(bytes@, width, height, orientation),
{
    let mut out: Vec<u8> = Vec::new();
    match orientation {
        Orientation::TopDown => {
            crate::bytes::append(&mut out, bytes);
            assert(out@ =~= bytes@);
        },
        Orientation::BottomUp => {
            let ghost stride = width * 4;
            let mut n: u32 = 0;
            while n < height
                invariant
                    n <= height,
                    stride == width * 4,
                    stride * height <= bytes@.len(),
                    bytes@.len() == bytes.len(),
                    out@ == rows_upward(bytes@, stride, height as int, n as int),
                decreases height - n,
            {
                let y: u32 = height - 1 - n;
                proof {
                    assert(y * stride <= height * stride) by (nonlinear_arith)
                        requires
                            y < height,
                            stride >= 0,
                    ;
                    assert((y + 1) * stride <= height * stride) by (nonlinear_arith)
                        requires
                            y < height,
                            stride >= 0,
                    ;
                    assert(y * stride + stride == (y + 1) * stride) by (nonlinear_arith);
                    assert(0 <= y * stride) by (nonlinear_arith)
                        requires
                            stride >= 0,
                            y >= 0,
                    ;
                    assert(height * stride == stride * height) by (nonlinear_arith);
                    assert(y >= 0 && y * stride >= 0);
                    assert(stride <= (y + 1) * stride);
                    assert(y * stride == y * width * 4) by (nonlinear_arith)
                        requires
                            stride == width * 4,
                    ;
                }
                let row_len: usize = width as usize * 4;
                let start: usize = y as usize * row_len;
                crate::bytes::append(&mut out, &bytes[start..start + row_len]);
                n += 1;
            }
            let ghost rows = out@;
            proof {
                lemma_rows_len(bytes@, stride, height as int, height as int);
                assert(height * stride == stride * height) by (nonlinear_arith);
                assert(rows + Seq::<u8>::new(0, |i: int| 0u8) =~= rows);
            }
            let ghost mut zeros: nat = 0;
            while out.len() < bytes.len()
                invariant
                    out@ == rows + Seq::new(zeros, |i: int| 0u8),
                    out@.len() <= bytes@.len(),
                decreases bytes@.len() - out@.len(),
            {
                out.push(0);
                proof {
                    zeros = zeros + 1;
                    assert(out@ =~= rows + Seq::new(zeros, |i: int| 0u8));
                }
            }
        },
    }
    out
}

/// `png::EncodingError`, as an opaque type.
#[verifier::external_type_specification]
#[verifier::external_body]
pub struct ExEncodingError(png::EncodingError);

/// The PNG file that the `png` crate makes of `width` times `height` pixels of
/// four bytes; `None` where it refuses them.
pub uninterp spec fn png_file(width: u32, height: u32, pixels: Seq<u8>) -> Option<Seq<u8>>;

/// `png::Encoder`, set to eight bits of red, green, blue and alpha, writing into
/// a buffer: the header (`write_header`), one image (`write_image_data`) and
/// the end (`finish`). The file is a function of the arguments. The crate
/// refuses an empty image and a pixel buffer of another length than
/// `4 * width * height`; that it accepts every other image is not claimed, since
/// it hands the pixels on to a compressor. The bound keeps its own size
/// arithmetic in range.
#[verifier::external_body]
fn encode_png(width: u32, height: u32, pixels: &[u8]) -> (r: Result<Vec<u8>, png::EncodingError>)
    requires
        16 * (width + 1) * (height + 1) <= usize::MAX,
    ensures
        match r {
            Ok(file) => png_file(width, height, pixels@) == Some(file@),
            Err(_) => png_file(width, height, pixels@) is None,
        },
        width == 0 || height == 0 || pixels@.len() != 4 * width * height ==> r is Err,
{
    let mut file = Vec::new();
    let mut encoder = png::Encoder::new(&mut file, width, height);
    encoder.set_color(png::ColorType::Rgba);
    encoder.set_depth(png::BitDepth::Eight);
    let mut writer = encoder.write_header()?;
    writer.write_image_data(pixels)?;
    writer.finish()?;
    Ok(file)
}

/// Why there is no screenshot file.
#[derive(Debug)]
pub enum ScreenshotError {
    Png(png::EncodingError),
}

/// The PNG file of a captured frame, top row first.
pub fn write_screenshot(bytes: &[u8], width: u32, height: u32, orientation: Orientation) -> (r:
    Result<Vec<u8>, ScreenshotError>)
    requires
        orientation is BottomUp ==> width * 4 * height <= bytes@.len(),
        16 * (width + 1) * (height + 1) <= usize::MAX,
    ensures
        match r {
            Ok(file) => png_file(width, height, upright(bytes@, width, height, orientation))
                == Some(file@),
            Err(_) => png_file(width, height, upright(bytes@, width, height, orientation)) is None,
        },
        width == 0 || height == 0 || bytes@.len() != 4 * width * height ==> r is Err,
{
    let pixels = turn_upright(bytes, width, height, orientation);
    proof {
        if orientation is BottomUp {
            lemma_rows_len(bytes@, width * 4, height as int, height as int);
            assert(height * (width * 4) == width * 4 * height) by (nonlinear_arith);
        }
        assert(pixels@.len() == bytes@.len());
    }
    match encode_png(width, height, pixels.as_slice()) {
        Ok(file) => Ok(file),
        Err(e) => Err(ScreenshotError::Png(e)),
    }
}

/// Turning an image twice gives its rows back, where it holds nothing but its
/// rows.
pub proof fn turning_twice_restores(bytes: Seq<u8>, width: u32, height: u32)
    requires
        width * 4 * height == bytes.len(),
    ensures
        upright(
            upright(bytes, width, height, Orientation::BottomUp),
            width,
            height,
            Orientation::BottomUp,
        ) == bytes,
{
    let stride = width * 4;
    let h = height as int;
    let once = upright(bytes, width, height, Orientation::BottomUp);
    let twice = upright(once, width, height, Orientation::BottomUp);
    assert(h * stride == stride * h) by (nonlinear_arith);
    lemma_rows_len(bytes, stride, h, h);
    assert(once =~= rows_upward(bytes, stride, h, h));
    lemma_rows_len(once, stride, h, h);
    assert(twice =~= rows_upward(once, stride, h, h));
    assert forall|p: int| 0 <= p < bytes.len() implies twice[p] == bytes[p] by {
        let y = p / stride;
        let x = p % stride;
        assert(stride > 0 && 0 <= x < stride && 0 <= y < h && p == y * stride + x) by (
            nonlinear_arith)
            requires
                0 <= p < stride * h,
                stride >= 0,
                h >= 0,
                y == p / stride,
                x == p % stride,
        ;
        lemma_row_pixel(once, stride, h, h, y, x);
        lemma_row_pixel(bytes, stride, h, h, h - 1 - y, x);
    }
    assert(twice =~= bytes);
}

/// Byte `x` of row `y` from the bottom.
proof fn lemma_row_pixel(bytes: Seq<u8>, stride: int, height: int, n: int, y: int, x: int)
    requires
        0 <= y < n <= height,
        0 <= x < stride,
        stride * height <= bytes.len(),
    ensures
        0 <= (height - 1 - y) * stride + x < bytes.len(),
        rows_upward(bytes, stride, height, n)[y * stride + x] == bytes[(height - 1 - y) * stride
            + x],
    decreases n,
{
    lemma_rows_len(bytes, stride, height, n - 1);
    lemma_rows_len(bytes, stride, height, n);
    let k = height - n;
    assert(0 <= (height - 1 - y) * stride && (height - 1 - y) * stride + x < stride * height) by (
        nonlinear_arith)
        requires
            0 <= y < height,
            0 <= x < stride,
    ;
    assert(0 <= k * stride && (k + 1) * stride == k * stride + stride && (k + 1) * stride <= stride
        * height) by (nonlinear_arith)
        requires
            0 <= k < height,
            0 < stride,
    ;
    if y < n - 1 {
        lemma_row_pixel(bytes, stride, height, n - 1, y, x);
        assert(0 <= y * stride + x < (n - 1) * stride) by (nonlinear_arith)
            requires
                0 <= y < n - 1,
                0 <= x < stride,
        ;
    } else {
        assert(row(bytes, stride, k)[x] == bytes[k * stride + x]);
    }
}

/// A frame that was read from the bottom up is turned so that its top row is
/// first: each byte keeps its column and changes its row for the opposite one. A
/// frame that is upright stays as it is, and no byte is lost.
pub proof fn frames_are_turned_upright(
    bytes: &[u8],
    width: u32,
    height: u32,
    orientation: Orientation,
    r: Vec<u8>,
)
    requires
        call_ensures(turn_upright, (bytes, width, height, orientation), r),
        orientation is BottomUp ==> width * 4 * height <= bytes@.len(),
    ensures
        r@.len() == bytes@.len(),
        orientation == Orientation::TopDown ==> r@ == bytes@,
        orientation == Orientation::BottomUp ==> forall|y: int, x: int|
            #![trigger r@[y * (width * 4) + x]]
            0 <= y < height && 0 <= x < width * 4 ==> r@[y * (width * 4) + x] == bytes@[(height - 1
                - y) * (width * 4) + x],
{
    if orientation is BottomUp {
        let stride = width * 4;
        let h = height as int;
        let rows = rows_upward(bytes@, stride, h, h);
        lemma_rows_len(bytes@, stride, h, h);
        assert(h * stride == stride * h) by (nonlinear_arith);
        assert forall|y: int, x: int|
            #![trigger r@[y * (width * 4) + x]]
            0 <= y < height && 0 <= x < width * 4 implies r@[y * (width * 4) + x] == bytes@[(height
            - 1 - y) * (width * 4) + x] by {
            lemma_row_pixel(bytes@, stride, h, h, y, x);
            assert(0 <= y * stride + x < h * stride) by (nonlinear_arith)
                requires
                    0 <= y < h,
                    0 <= x < stride,
            ;
        }
    }
}

/// A screenshot is the file of the upright frame, of the size that was captured.
pub proof fn screenshots_show_the_frame_upright(
    bytes: &[u8],
    width: u32,
    height: u32,
    orientation: Orientation,
    r: Result<Vec<u8>, ScreenshotError>,
    pixels: Vec<u8>,
)
    requires
        call_ensures(write_screenshot, (bytes, width, height, orientation), r),
        call_ensures(turn_upright, (bytes, width, height, orientation), pixels),
    ensures
        r matches Ok(file) ==> png_file(width, height, pixels@) == Some(file@),
        r is Err ==> png_file(width, height, pixels@) is None,
        r is Ok ==> width > 0 && height > 0 && bytes@.len() == 4 * width * height,
{
}

/// An encoder is started for a size and a rate that are not empty, and for frames
/// of four bytes per pixel; it is told the size, the rate and the file, and turns
/// the frames upright. Any other request is refused, and says what was wrong.
pub proof fn encoders_are_told_what_they_get(
    path: &str,
    size: Size,
    fps: u32,
    r: Result<(VideoEncoder, Vec<String>), EncoderRefusal>,
)
    requires
        call_ensures(VideoEncoder::spawn, (path, size, fps), r),
        size.w > 0 && size.h > 0 ==> size.w * size.h * 4 <= usize::MAX,
    ensures
        r is Ok <==> size.w > 0 && size.h > 0 && fps > 0,
        size.w <= 0 || size.h <= 0 ==> r == Err::<(VideoEncoder, Vec<String>), EncoderRefusal>(
            EncoderRefusal::NonPositiveSize(size),
        ),
        size.w > 0 && size.h > 0 && fps == 0 ==> r == Err::<
            (VideoEncoder, Vec<String>),
            EncoderRefusal,
        >(EncoderRefusal::ZeroFps),
        r matches Ok((encoder, args)) ==> {
            &&& encoder.bytes_per_frame == 4 * (size.w * size.h)
            &&& encoder.size == size && encoder.fps == fps
            &&& encoder.open && encoder.dropped_frames == 0
            &&& args@.len() == 22
            &&& args@[0]@ == "-y"@ && args@[1]@ == "-loglevel"@ && args@[2]@ == "warning"@
            &&& args@[3]@ == "-f"@ && args@[4]@ == "rawvideo"@
            &&& args@[5]@ == "-pixel_format"@ && args@[6]@ == "rgba"@
            &&& args@[7]@ == "-video_size"@
            &&& args@[8]@ == decimal(size.w as nat) + seq!['x'] + decimal(size.h as nat)
            &&& args@[9]@ == "-framerate"@ && args@[10]@ == decimal(fps as nat)
            &&& args@[11]@ == "-i"@ && args@[12]@ == "pipe:0"@
            &&& args@[13]@ == "-c:v"@ && args@[14]@ == "libx264"@
            &&& args@[15]@ == "-preset"@ && args@[16]@ == "ultrafast"@
            &&& args@[17]@ == "-pix_fmt"@ && args@[18]@ == "yuv420p"@
            &&& args@[19]@ == "-vf"@
            &&& args@[20]@ == "vflip,pad=ceil(iw/2)*2:ceil(ih/2)*2"@
            &&& args@[21]@ == path@
        },
{
    if let Ok((encoder, args)) = r {
        let all = texts(args@);
        assert(all.len() == args@.len());
        assert forall|i: int| 0 <= i < all.len() implies #[trigger] all[i] == args@[i]@ by {}
        assert(all[0] == args@[0]@ && all[1] == args@[1]@ && all[2] == args@[2]@ && all[3]
            == args@[3]@ && all[4] == args@[4]@ && all[5] == args@[5]@ && all[6] == args@[6]@
            && all[7] == args@[7]@ && all[8] == args@[8]@ && all[9] == args@[9]@ && all[10]
            == args@[10]@ && all[11] == args@[11]@ && all[12] == args@[12]@ && all[13]
            == args@[13]@ && all[14] == args@[14]@ && all[15] == args@[15]@ && all[16]
            == args@[16]@ && all[17] == args@[17]@ && all[18] == args@[18]@ && all[19]
            == args@[19]@ && all[20] == args@[20]@ && all[21] == args@[21]@);
    }
}

/// An open encoder takes frames of its own byte count and no other; a closed one
/// takes none. A frame that finds the queue full is dropped and counted, which is
/// no error; a writer that died is one.
pub proof fn encoders_take_whole_frames(
    encoder: VideoEncoder,
    len: usize,
    r: Result<(), PushError>,
    pushed: &mut VideoEncoder,
    sent: SendOutcome,
    p: Result<(), PushError>,
    finished: &mut VideoEncoder,
)
    requires
        call_ensures(VideoEncoder::accepts, (&encoder, len), r),
        call_ensures(VideoEncoder::push_frame, (pushed, sent), p),
        old(pushed).dropped_frames < u64::MAX,
        call_ensures(VideoEncoder::finish, (finished,), ()),
    ensures
        r is Ok <==> len == encoder.bytes_per_frame && encoder.open,
        len != encoder.bytes_per_frame ==> r == Err::<(), PushError>(
            PushError::ByteCount { got: len, expected: encoder.bytes_per_frame },
        ),
        len == encoder.bytes_per_frame && !encoder.open ==> r == Err::<(), PushError>(
            PushError::Closed,
        ),
        sent == SendOutcome::Disconnected ==> p == Err::<(), PushError>(PushError::WriterDied),
        sent != SendOutcome::Disconnected ==> p is Ok,
        sent == SendOutcome::Full ==> final(pushed).dropped_frames == old(pushed).dropped_frames
            + 1,
        sent != SendOutcome::Full ==> final(pushed).dropped_frames == old(pushed).dropped_frames,
        final(pushed).open == old(pushed).open,
        final(pushed).bytes_per_frame == old(pushed).bytes_per_frame,
        !final(finished).open,
        final(finished).dropped_frames == old(finished).dropped_frames,
{
}

} // verus!
