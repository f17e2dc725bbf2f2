//! Sprites: their description, and their encoding as a chunk.

use vstd::prelude::*;
use crate::bytes::push_all;
use crate::container::{
    assemble, assembled, frame_offset, frame_views, law_offsets_increase, SPR1_VERSION,
    SPR2_VERSION,
};
use crate::error::{EncodeError, FrameError};
use crate::iff::{ChunkHeader, ChunkId};
use crate::pixels::PixelBuffer;
use crate::sprite::{Rotation, SpriteBounds, ZoomLevel};

verus! {

/// The position of a frame among the frames of its sprite, as authored.
#[derive(Clone, Copy, Debug, PartialEq, Eq, Structural)]
pub struct SpriteIndex(pub u32);

impl SpriteIndex {
    pub fn new(index: u32) -> (r: SpriteIndex)
        ensures
            r.0 == index,
    {
        SpriteIndex(index)
    }

    pub fn as_u32(self) -> (r: u32)
        ensures
            r == self.0,
    {
        self.0
    }
}

/// The two formats.
#[derive(Clone, Copy, Debug, PartialEq, Eq, Structural)]
pub enum SpriteType {
    Spr1,
    Spr2,
}

/// The three images that a frame is drawn from.
#[derive(Clone, Copy, Debug, PartialEq, Eq, Structural)]
pub enum SpriteChannelType {
    Color,
    Depth,
    Alpha,
}

/// The source image of one channel of a frame.
#[derive(Clone, Debug)]
pub struct SpriteChannel {
    pub channel_type: SpriteChannelType,
    pub file_path_relative: String,
}

/// One frame of a sprite.
#[derive(Clone, Debug)]
pub struct SpriteFrame {
    pub index: SpriteIndex,
    pub zoom_level: ZoomLevel,
    pub rotation: Rotation,
    pub bounds_left: i16,
    pub bounds_top: i16,
    pub bounds_right: i16,
    pub bounds_bottom: i16,
    pub width: i16,
    pub height: i16,
    pub palette_chunk_id: ChunkId,
    pub transparent_color_index: u8,
    pub sprite_channels: Vec<SpriteChannel>,
}

/// A sprite: its frames in the order in which they are stored.
#[derive(Clone, Debug)]
pub struct Sprite {
    pub chunk_label: String,
    pub chunk_id: ChunkId,
    pub sprite_type: SpriteType,
    pub multi_tile: i32,
    pub palette_chunk_id: ChunkId,
    pub sprite_frame_count: i32,
    pub is_custom_wall_style: bool,
    pub sprite_frames: Vec<SpriteFrame>,
}

/// The decoded channels of one frame. A channel is `None` where its source
/// image could not be had.
#[derive(Clone, Debug)]
pub struct FrameChannels {
    pub color: Option<PixelBuffer>,
    pub depth: Option<PixelBuffer>,
    pub alpha: Option<PixelBuffer>,
}

/// Position of the first channel of the kind `channel_type` from position
/// `i` on, or the number of channels where there is none.
pub open spec fn first_channel_from(
    channels: Seq<SpriteChannel>,
    channel_type: SpriteChannelType,
    i: int,
) -> int
    decreases channels.len() - i,
{
    if i < 0 || i >= channels.len() {
        channels.len() as int
    } else if channels[i].channel_type == channel_type {
        i
    } else {
        first_channel_from(channels, channel_type, i + 1)
    }
}

impl SpriteFrame {
    /// Position of the first channel of the kind `channel_type`, or the
    /// number of channels where the frame has none.
    pub open spec fn channel_position(&self, channel_type: SpriteChannelType) -> int {
        first_channel_from(self.sprite_channels@, channel_type, 0)
    }

    /// The frame names a source image for the channel.
    pub open spec fn has_channel(&self, channel_type: SpriteChannelType) -> bool {
        self.channel_position(channel_type) < self.sprite_channels@.len()
    }

    /// The rectangle of the source images that the frame covers.
    pub open spec fn bounds(&self) -> SpriteBounds {
        SpriteBounds {
            left: self.bounds_left,
            top: self.bounds_top,
            right: self.bounds_right,
            bottom: self.bounds_bottom,
        }
    }

    /// The rectangle of the source images that the frame covers.
    pub fn frame_bounds(&self) -> (r: SpriteBounds)
        ensures
            r == self.bounds(),
    {
        SpriteBounds {
            left: self.bounds_left,
            top: self.bounds_top,
            right: self.bounds_right,
            bottom: self.bounds_bottom,
        }
    }

    /// Finds the first channel of the kind `channel_type`.
    pub fn find_channel(&self, channel_type: SpriteChannelType) -> (r: Option<usize>)
        ensures
            r.is_some() == self.has_channel(channel_type),
            r matches Some(i) ==> i == self.channel_position(channel_type)
                && self.sprite_channels@[i as int].channel_type == channel_type,
    {
        let mut i: usize = 0;
        while i < self.sprite_channels.len()
            invariant
                i <= self.sprite_channels@.len(),
                self.channel_position(channel_type) == first_channel_from(
                    self.sprite_channels@,
                    channel_type,
                    i as int,
                ),
            decreases self.sprite_channels@.len() - i,
        {
            if self.sprite_channels[i].channel_type == channel_type {
                return Some(i);
            }
            i += 1;
        }
        None
    }

    /// Tells whether the frame names a source image for the channel.
    pub fn has_sprite_channel(&self, channel_type: SpriteChannelType) -> (r: bool)
        ensures
            r == self.has_channel(channel_type),
    {
        self.find_channel(channel_type).is_some()
    }

    /// The path of the source image of the channel, relative to the
    /// directory of the sprite.
    pub fn sprite_channel_file_path_relative(&self, channel_type: SpriteChannelType) -> (r: &str)
        requires
            self.has_channel(channel_type),
        ensures
            r@ == self.sprite_channels@[self.channel_position(
                channel_type,
            )].file_path_relative@,
    {
        let i: usize = self.find_channel(channel_type).unwrap();
        self.sprite_channels[i].file_path_relative.as_str()
    }

    /// The path of the source image of the channel, to be changed in place.
    /// Nothing else of the frame changes.
    pub fn sprite_channel_file_path_relative_mut(&mut self, channel_type: SpriteChannelType) -> (r:
        &mut String)
        requires
            old(self).has_channel(channel_type),
        ensures
            *r == old(self).sprite_channels@[old(self).channel_position(
                channel_type,
            )].file_path_relative,
            *final(self) == (SpriteFrame {
                sprite_channels: final(self).sprite_channels,
                ..*old(self)
            }),
            final(self).sprite_channels@ == old(self).sprite_channels@.update(
                old(self).channel_position(channel_type),
                SpriteChannel { channel_type, file_path_relative: *final(r) },
            ),
    {
        let i: usize = self.find_channel(channel_type).unwrap();
        &mut self.sprite_channels[i].file_path_relative
    }
}

/// The transparent colour of every frame of a custom wall style.
pub const WALL_STYLE_TRANSPARENT: u8 = 255;

impl Sprite {
    /// The sprite has a palette of its own: its palette id is positive.
    pub open spec fn real_palette(&self) -> bool {
        self.palette_chunk_id.0 > 0
    }

    /// The version that opens the payload.
    pub open spec fn version(&self) -> u32 {
        match self.sprite_type {
            SpriteType::Spr1 => SPR1_VERSION,
            SpriteType::Spr2 => SPR2_VERSION,
        }
    }

    /// The four characters that name the kind of chunk.
    pub open spec fn tag(&self) -> Seq<char> {
        match self.sprite_type {
            SpriteType::Spr1 => "SPR#"@,
            SpriteType::Spr2 => "SPR2"@,
        }
    }

    /// The transparent colour with which a frame of the older format is
    /// encoded: the one the frame declares, but 255 in a custom wall style.
    pub open spec fn spr1_transparent(&self, frame: &SpriteFrame) -> u8 {
        if self.is_custom_wall_style {
            WALL_STYLE_TRANSPARENT
        } else {
            frame.transparent_color_index
        }
    }

    /// The channel that holds the palette indices of a frame of the older
    /// format: colour, but depth in a custom wall style.
    pub open spec fn spr1_source(&self, channels: &FrameChannels) -> Option<PixelBuffer> {
        if self.is_custom_wall_style {
            channels.depth
        } else {
            channels.color
        }
    }

    /// The format reads the channel: the older one reads colour alone, or
    /// depth alone in a custom wall style; the newer one reads all three.
    pub open spec fn uses_channel(&self, channel_type: SpriteChannelType) -> bool {
        match self.sprite_type {
            SpriteType::Spr1 => if self.is_custom_wall_style {
                channel_type == SpriteChannelType::Depth
            } else {
                channel_type == SpriteChannelType::Color
            },
            SpriteType::Spr2 => true,
        }
    }

    /// What encoding one frame gives, from the channels that were decoded
    /// for it. A channel that the format needs and that is missing gives
    /// `Decode`.
    pub open spec fn frame_encoding(&self, frame: &SpriteFrame, channels: &FrameChannels) -> Result<
        Seq<u8>,
        FrameError,
    > {
        match self.sprite_type {
            SpriteType::Spr1 => match self.spr1_source(channels) {
                Some(buffer) => crate::spr1::encoding(
                    &buffer,
                    self.spr1_transparent(frame),
                    self.real_palette(),
                ),
                None => Err(FrameError::Decode),
            },
            SpriteType::Spr2 => match (channels.depth, channels.color, channels.alpha) {
                (Some(depth), Some(color), Some(alpha)) => crate::spr2::encoding(
                    frame.bounds(),
                    frame.palette_chunk_id.0,
                    frame.transparent_color_index,
                    &depth,
                    &color,
                    &alpha,
                ),
                _ => Err(FrameError::Decode),
            },
        }
    }

    /// What encoding the first `n` frames gives: the failure of the first
    /// frame that fails, told of its position, or the frames in order. A
    /// frame for which no channels were handed in fails with `Decode`.
    pub open spec fn encoded_frames(&self, channels: Seq<FrameChannels>, n: int) -> Result<
        Seq<Seq<u8>>,
        EncodeError,
    >
        decreases n,
    {
        if n <= 0 {
            Ok(Seq::empty())
        } else {
            match self.encoded_frames(channels, n - 1) {
                Err(e) => Err(e),
                Ok(frames) => if n - 1 >= channels.len() {
                    Err(EncodeError::Decode { frame: (n - 1) as usize })
                } else {
                    match self.frame_encoding(&self.sprite_frames@[n - 1], &channels[n - 1]) {
                        Err(e) => Err(e.at((n - 1) as usize)),
                        Ok(bytes) => Ok(frames.push(bytes)),
                    }
                },
            }
        }
    }

    /// What encoding the sprite gives: `FrameCountMismatch` where the
    /// declared number of frames is not the number of frames; otherwise the
    /// failure of the first frame that fails; otherwise `EncodingOverflow`
    /// at the first frame whose offset does not fit in 32 bits; otherwise
    /// the payload of the chunk.
    pub open spec fn payload_encoding(&self, channels: Seq<FrameChannels>) -> Result<
        Seq<u8>,
        EncodeError,
    > {
        if self.sprite_frame_count != self.sprite_frames@.len() {
            Err(EncodeError::FrameCountMismatch)
        } else {
            match self.encoded_frames(channels, self.sprite_frames@.len() as int) {
                Err(e) => Err(e),
                Ok(frames) => match assembled(self.version(), self.palette_chunk_id.0 as i32, frames) {
                    Err(i) => Err(EncodeError::EncodingOverflow { frame: i as usize }),
                    Ok(bytes) => Ok(bytes),
                },
            }
        }
    }

    /// `header` is what the writer of chunk headers is told of the chunk of
    /// this sprite with a payload of `payload_len` bytes.
    pub open spec fn describes(&self, header: ChunkHeader, payload_len: nat) -> bool {
        header.tag@ == self.tag() && header.payload_len == payload_len && header.chunk_id
            == self.chunk_id && header.label@ == self.chunk_label@
    }

    /// Tells whether the format reads the channel.
    pub fn needs_channel(&self, channel_type: SpriteChannelType) -> (r: bool)
        ensures
            r == self.uses_channel(channel_type),
    {
        match self.sprite_type {
            SpriteType::Spr1 => if self.is_custom_wall_style {
                channel_type == SpriteChannelType::Depth
            } else {
                channel_type == SpriteChannelType::Color
            },
            SpriteType::Spr2 => true,
        }
    }

    /// Encodes one frame from the channels that were decoded for it.
    pub fn encode_frame(&self, frame: &SpriteFrame, channels: &FrameChannels) -> (r: Result<
        Vec<u8>,
        FrameError,
    >)
        ensures
            match r {
                Ok(bytes) => self.frame_encoding(frame, channels) == Ok::<Seq<u8>, FrameError>(
                    bytes@,
                ),
                Err(e) => self.frame_encoding(frame, channels) == Err::<Seq<u8>, FrameError>(e),
            },
    {
        match self.sprite_type {
            SpriteType::Spr1 => {
                let source: &Option<PixelBuffer> = if self.is_custom_wall_style {
                    &channels.depth
                } else {
                    &channels.color
                };
                let transparent: u8 = if self.is_custom_wall_style {
                    WALL_STYLE_TRANSPARENT
                } else {
                    frame.transparent_color_index
                };
                match source {
                    Some(buffer) => crate::spr1::encode_frame(
                        buffer,
                        transparent,
                        self.palette_chunk_id.as_i16() > 0,
                    ),
                    None => Err(FrameError::Decode),
                }
            },
            SpriteType::Spr2 => {
                let bounds: SpriteBounds = frame.frame_bounds();
                match (&channels.depth, &channels.color, &channels.alpha) {
                    (Some(depth), Some(color), Some(alpha)) => crate::spr2::encode_frame(
                        &bounds,
                        frame.palette_chunk_id.as_i16(),
                        frame.transparent_color_index,
                        depth,
                        color,
                        alpha,
                    ),
                    _ => Err(FrameError::Decode),
                }
            },
        }
    }

    /// Encodes the sprite as the payload of its chunk: every frame from
    /// its channels, `channels[i]` for frame `i`, and the frames laid out
    /// behind their offset table.
    pub fn to_chunk_payload(&self, channels: &Vec<FrameChannels>) -> (r: Result<
        Vec<u8>,
        EncodeError,
    >)
        ensures
            match r {
                Ok(bytes) => self.payload_encoding(channels@) == Ok::<Seq<u8>, EncodeError>(
                    bytes@,
                ),
                Err(e) => self.payload_encoding(channels@) == Err::<Seq<u8>, EncodeError>(e),
            },
    {
        let n: usize = self.sprite_frames.len();
        if self.sprite_frame_count < 0 || self.sprite_frame_count as usize != n {
            return Err(EncodeError::FrameCountMismatch);
        }
        let mut frames: Vec<Vec<u8>> = Vec::new();
        let mut i: usize = 0;
        assert(frame_views(frames@) =~= Seq::<Seq<u8>>::empty());
        while i < n
            invariant
                n == self.sprite_frames@.len(),
                self.sprite_frame_count == n,
                i <= n,
                frames@.len() == i,
                self.encoded_frames(channels@, i as int) == Ok::<Seq<Seq<u8>>, EncodeError>(
                    frame_views(frames@),
                ),
            decreases n - i,
        {
            if i >= channels.len() {
                proof {
                    assert(self.encoded_frames(channels@, i + 1) is Err);
                    self.lemma_failure_stays(channels@, i + 1, n as int);
                }
                return Err(EncodeError::Decode { frame: i });
            }
            match self.encode_frame(&self.sprite_frames[i], &channels[i]) {
                Err(e) => {
                    proof {
                        assert(self.encoded_frames(channels@, i + 1) is Err);
                        self.lemma_failure_stays(channels@, i + 1, n as int);
                    }
                    return Err(e.at_frame(i));
                },
                Ok(bytes) => {
                    let ghost before = frame_views(frames@);
                    frames.push(bytes);
                    assert(frame_views(frames@) =~= before.push(bytes@));
                },
            }
            i += 1;
        }
        match assemble(self.version_number(), self.palette_chunk_id.as_i32(), &frames) {
            Err(i) => Err(EncodeError::EncodingOverflow { frame: i }),
            Ok(bytes) => Ok(bytes),
        }
    }

    /// The version that opens the payload.
    pub fn version_number(&self) -> (r: u32)
        ensures
            r == self.version(),
    {
        match self.sprite_type {
            SpriteType::Spr1 => SPR1_VERSION,
            SpriteType::Spr2 => SPR2_VERSION,
        }
    }

    /// Once a frame has failed, its failure is that of every longer prefix.
    pub proof fn lemma_failure_stays(&self, channels: Seq<FrameChannels>, k: int, n: int)
        requires
            k <= n,
            self.encoded_frames(channels, k) is Err,
        ensures
            self.encoded_frames(channels, n) == self.encoded_frames(channels, k),
        decreases n - k,
    {
        if k < n {
            self.lemma_failure_stays(channels, k, n - 1);
        }
    }

    /// Where the first `n` frames can be encoded, so can fewer, and there
    /// are `n` of them.
    pub proof fn lemma_encoded_len(&self, channels: Seq<FrameChannels>, n: int)
        requires
            0 <= n,
            self.encoded_frames(channels, n) is Ok,
        ensures
            self.encoded_frames(channels, n).unwrap().len() == n,
            n > 0 ==> self.encoded_frames(channels, n - 1) is Ok,
        decreases n,
    {
        if n > 0 {
            self.lemma_encoded_len(channels, n - 1);
        }
    }

    /// Where the first `n` frames can be encoded, frame `k` among them is
    /// what encoding it by itself gives, which is never empty.
    pub proof fn lemma_encoded_frame(&self, channels: Seq<FrameChannels>, n: int, k: int)
        requires
            0 <= k < n <= self.sprite_frames@.len(),
            self.encoded_frames(channels, n) is Ok,
        ensures
            k < channels.len(),
            self.encoded_frames(channels, n).unwrap().len() == n,
            self.frame_encoding(&self.sprite_frames@[k], &channels[k]) == Ok::<
                Seq<u8>,
                FrameError,
            >(self.encoded_frames(channels, n).unwrap()[k]),
            self.encoded_frames(channels, n).unwrap()[k].len() > 0,
        decreases n,
    {
        self.lemma_encoded_len(channels, n);
        self.lemma_encoded_len(channels, n - 1);
        if k < n - 1 {
            self.lemma_encoded_frame(channels, n - 1, k);
        }
    }

    /// A channel that the format needs was not decoded for the frame.
    pub open spec fn missing_channel(&self, channels: &FrameChannels) -> bool {
        match self.sprite_type {
            SpriteType::Spr1 => self.spr1_source(channels) is None,
            SpriteType::Spr2 => channels.depth is None || channels.color is None
                || channels.alpha is None,
        }
    }

    /// Where the frames before frame `i` can be encoded and a source image
    /// of frame `i` is missing, encoding the sprite fails with `Decode` at
    /// frame `i`, and gives no bytes.
    pub proof fn law_missing_channel_is_decode_error(&self, channels: Seq<FrameChannels>, i: int)
        requires
            self.sprite_frame_count == self.sprite_frames@.len(),
            0 <= i < self.sprite_frames@.len(),
            self.encoded_frames(channels, i) is Ok,
            i >= channels.len() || self.missing_channel(&channels[i]),
        ensures
            self.payload_encoding(channels) == Err::<Seq<u8>, EncodeError>(
                EncodeError::Decode { frame: i as usize },
            ),
    {
        assert(self.encoded_frames(channels, i + 1) == Err::<Seq<Seq<u8>>, EncodeError>(
            EncodeError::Decode { frame: i as usize },
        ));
        self.lemma_failure_stays(channels, i + 1, self.sprite_frames@.len() as int);
    }

    /// A frame is encoded from the channels that its format reads alone.
    pub proof fn law_only_used_channels_count(
        &self,
        frame: &SpriteFrame,
        one: &FrameChannels,
        other: &FrameChannels,
    )
        requires
            self.uses_channel(SpriteChannelType::Color) ==> one.color == other.color,
            self.uses_channel(SpriteChannelType::Depth) ==> one.depth == other.depth,
            self.uses_channel(SpriteChannelType::Alpha) ==> one.alpha == other.alpha,
        ensures
            self.frame_encoding(frame, one) == self.frame_encoding(frame, other),
    {
    }

    /// The offsets of the frames of a sprite grow strictly from each frame
    /// to the next.
    pub proof fn law_frame_offsets_increase(&self, channels: Seq<FrameChannels>, i: int, j: int)
        requires
            self.encoded_frames(channels, self.sprite_frames@.len() as int) is Ok,
            0 <= i < j < self.sprite_frames@.len(),
        ensures
            frame_offset(
                self.encoded_frames(channels, self.sprite_frames@.len() as int).unwrap(),
                i,
            ) < frame_offset(
                self.encoded_frames(channels, self.sprite_frames@.len() as int).unwrap(),
                j,
            ),
    {
        let n = self.sprite_frames@.len() as int;
        let frames = self.encoded_frames(channels, n).unwrap();
        self.lemma_encoded_len(channels, n);
        assert forall|k: int| 0 <= k < frames.len() implies (#[trigger] frames[k]).len() > 0 by {
            self.lemma_encoded_frame(channels, n, k);
        }
        law_offsets_increase(frames, i, j);
    }

    /// What the writer of chunk headers is told of the chunk of this sprite
    /// with a payload of `payload_len` bytes.
    pub fn chunk_header(&self, payload_len: usize) -> (r: ChunkHeader)
        ensures
            self.describes(r, payload_len as nat),
    {
        let tag: &str = match self.sprite_type {
            SpriteType::Spr1 => "SPR#",
            SpriteType::Spr2 => "SPR2",
        };
        ChunkHeader {
            tag: String::from_str(tag),
            payload_len,
            chunk_id: self.chunk_id,
            label: self.chunk_label.clone(),
        }
    }

    /// Encodes the sprite as a chunk: the header that `write_header` gives
    /// for the payload, and the payload behind it. Nothing is written and
    /// `write_header` is not called where the payload cannot be had.
    pub fn to_chunk_bytes<W: FnOnce(ChunkHeader) -> Vec<u8>>(
        &self,
        channels: &Vec<FrameChannels>,
        write_header: W,
    ) -> (r: Result<Vec<u8>, EncodeError>)
        requires
            forall|header: ChunkHeader| call_requires(write_header, (header,)),
        ensures
            match r {
                Ok(bytes) => self.payload_encoding(channels@) matches Ok(payload) && exists|
                    header: ChunkHeader,
                    written: Vec<u8>,
                |
                    self.describes(header, payload.len()) && #[trigger] call_ensures(
                        write_header,
                        (header,),
                        written,
                    ) && bytes@ == written@ + payload,
                Err(e) => self.payload_encoding(channels@) == Err::<Seq<u8>, EncodeError>(e),
            },
    {
        match self.to_chunk_payload(channels) {
            Err(e) => Err(e),
            Ok(payload) => {
                let header: ChunkHeader = self.chunk_header(payload.len());
                let written: Vec<u8> = write_header(header);
                Ok(wrap_payload(written, &payload))
            },
        }
    }
}

/// The chunk: the header as it was written, and the payload behind it.
pub fn wrap_payload(header: Vec<u8>, payload: &Vec<u8>) -> (r: Vec<u8>)
    ensures
        r@ == header@ + payload@,
{
    let mut chunk: Vec<u8> = header;
    push_all(&mut chunk, payload);
    chunk
}

} // verus!
