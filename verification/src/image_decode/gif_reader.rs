//! The frames of a GIF stream, as the `gif` crate hands them out.

use vstd::prelude::*;

verus! {

/// What becomes of a frame's area once its time is over.
#[derive(Debug, Clone, Copy, PartialEq, Eq, Structural)]
pub enum DisposalMethod {
    /// Nothing in particular.
    Any,
    /// The frame stays.
    Keep,
    /// The frame's area becomes transparent.
    Background,
    /// The screen goes back to what it showed before the frame.
    Previous,
}

/// How often an animation asks to be played.
#[derive(Debug, Clone, Copy, PartialEq, Eq, Structural)]
pub enum Repeat {
    Finite(u16),
    Infinite,
}

/// One frame as stored in the stream: a rectangle of RGBA pixels and its place
/// on the logical screen.
#[derive(Debug)]
pub struct RawFrame {
    pub left: u16,
    pub top: u16,
    pub width: u16,
    pub height: u16,
    /// Hundredths of a second.
    pub delay: u16,
    pub dispose: DisposalMethod,
    /// Four bytes per pixel, row by row.
    pub buffer: Vec<u8>,
}

/// A [`RawFrame`] with its pixels as a sequence.
#[verifier::ext_equal]
pub ghost struct RawFrameModel {
    pub left: u16,
    pub top: u16,
    pub width: u16,
    pub height: u16,
    pub delay: u16,
    pub dispose: DisposalMethod,
    pub buffer: Seq<u8>,
}

impl View for RawFrame {
    type V = RawFrameModel;

    open spec fn view(&self) -> RawFrameModel {
        RawFrameModel {
            left: self.left,
            top: self.top,
            width: self.width,
            height: self.height,
            delay: self.delay,
            dispose: self.dispose,
            buffer: self.buffer@,
        }
    }
}

/// What one attempt to read a frame brings.
#[derive(Debug)]
pub enum FrameRead {
    Frame(RawFrame),
    /// The stream is over.
    End,
    /// The stream is broken; the text says how.
    Failed(String),
}

/// A [`FrameRead`] with its contents as sequences.
#[verifier::ext_equal]
pub ghost enum FrameReadModel {
    Frame(RawFrameModel),
    End,
    Failed(Seq<char>),
}

impl View for FrameRead {
    type V = FrameReadModel;

    open spec fn view(&self) -> FrameReadModel {
        match self {
            FrameRead::Frame(frame) => FrameReadModel::Frame(frame@),
            FrameRead::End => FrameReadModel::End,
            FrameRead::Failed(message) => FrameReadModel::Failed(message@),
        }
    }
}

/// A decoder of the `gif` crate, part of the way through the bytes it was
/// opened on.
#[verifier::external_body]
pub struct GifReader<'a> {
    decoder: gif::Decoder<std::io::Cursor<&'a [u8]>>,
}

/// The bytes that a reader was opened on.
pub uninterp spec fn gif_source(reader: GifReader<'_>) -> Seq<u8>;

/// How many frames have been asked of a reader so far.
pub uninterp spec fn gif_reads(reader: GifReader<'_>) -> nat;

/// What `gif::DecodeOptions::read_info`, set to RGBA output, says against
/// reading `bytes`; nothing when it opens them.
pub uninterp spec fn gif_open_error(bytes: Seq<u8>) -> Option<Seq<char>>;

/// What `gif::Decoder::width` gives for a decoder opened on `bytes`.
pub uninterp spec fn gif_screen_width(bytes: Seq<u8>) -> u16;

/// What `gif::Decoder::height` gives for a decoder opened on `bytes`.
pub uninterp spec fn gif_screen_height(bytes: Seq<u8>) -> u16;

/// What `gif::Decoder::read_next_frame` gives on a decoder opened on `bytes`
/// that was asked for `index` frames before.
pub uninterp spec fn gif_frame(bytes: Seq<u8>, index: nat) -> FrameReadModel;

/// What `gif::Decoder::repeat` gives for a decoder opened on `bytes` that was
/// asked for `reads` frames.
pub uninterp spec fn gif_repeat(bytes: Seq<u8>, reads: nat) -> Repeat;

impl<'a> GifReader<'a> {
    /// Opens a stream.
    ///
    /// Calls `gif::DecodeOptions::read_info` on default options with the color
    /// output set to RGBA. Trusted: whether it succeeds, and the text of its
    /// error, depend on the bytes alone, and the decoder it gives reads those
    /// bytes and has not been asked for a frame.
    #[verifier::external_body]
    pub(crate) fn open(bytes: &'a [u8]) -> (reader: Result<GifReader<'a>, String>)
        ensures
            match reader {
                Ok(opened) => {
                    &&& gif_open_error(bytes@) is None
                    &&& gif_source(opened) == bytes@
                    &&& gif_reads(opened) == 0
                },
                Err(message) => gif_open_error(bytes@) == Some(message@),
            },
    {
        let mut options = gif::DecodeOptions::new();
        options.set_color_output(gif::ColorOutput::RGBA);
        match options.read_info(std::io::Cursor::new(bytes)) {
            Ok(decoder) => Ok(GifReader { decoder }),
            Err(err) => Err(err.to_string()),
        }
    }

    /// The width of the logical screen.
    ///
    /// Calls `gif::Decoder::width`. Trusted: the width is part of the bytes
    /// and does not change as frames are read.
    #[verifier::external_body]
    pub(crate) fn width(&self) -> (width: u16)
        ensures
            width == gif_screen_width(gif_source(*self)),
    {
        self.decoder.width()
    }

    /// The height of the logical screen.
    ///
    /// Calls `gif::Decoder::height`. Trusted: the height is part of the bytes
    /// and does not change as frames are read.
    #[verifier::external_body]
    pub(crate) fn height(&self) -> (height: u16)
        ensures
            height == gif_screen_height(gif_source(*self)),
    {
        self.decoder.height()
    }

    /// Reads one more frame.
    ///
    /// Calls `gif::Decoder::read_next_frame` and copies out what it gives.
    /// Trusted: as long as memory can be had, the outcome depends on the bytes
    /// and on the number of frames asked for before, and on nothing else.
    #[verifier::external_body]
    pub(crate) fn next_frame(&mut self) -> (read: FrameRead)
        ensures
            read@ == gif_frame(gif_source(*old(self)), gif_reads(*old(self))),
            gif_source(*final(self)) == gif_source(*old(self)),
            gif_reads(*final(self)) == gif_reads(*old(self)) + 1,
    {
        match self.decoder.read_next_frame() {
            Ok(Some(f)) => {
                let dispose = match f.dispose {
                    gif::DisposalMethod::Any => DisposalMethod::Any,
                    gif::DisposalMethod::Keep => DisposalMethod::Keep,
                    gif::DisposalMethod::Background => DisposalMethod::Background,
                    gif::DisposalMethod::Previous => DisposalMethod::Previous,
                };
                let (left, top, width, height, delay) = (f.left, f.top, f.width, f.height, f.delay);
                let buffer = f.buffer.to_vec();
                FrameRead::Frame(RawFrame { left, top, width, height, delay, dispose, buffer })
            },
            Ok(None) => FrameRead::End,
            Err(err) => FrameRead::Failed(err.to_string()),
        }
    }

    /// The loop count known so far.
    ///
    /// Calls `gif::Decoder::repeat`. Trusted: the count depends on the bytes
    /// and on the number of frames asked for, and on nothing else.
    #[verifier::external_body]
    pub(crate) fn repeat(&self) -> (repeat: Repeat)
        ensures
            repeat == gif_repeat(gif_source(*self), gif_reads(*self)),
    {
        match self.decoder.repeat() {
            gif::Repeat::Finite(count) => Repeat::Finite(count),
            gif::Repeat::Infinite => Repeat::Infinite,
        }
    }
}

} // verus!
