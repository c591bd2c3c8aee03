//! The engine's live resources: one pool per category, each an ordered list
//! of resources. Exclusive access to a pool (`&mut Pyxel`) stands for holding
//! its lock; a pool is replaced as a whole.
use vstd::prelude::*;

verus! {

/// A palette index.
pub type Color = u8;

/// A 24-bit RGB value.
pub type Rgb24 = u32;

/// One coordinate of a tile in its image.
pub type TileCoord = u16;

/// A gain, held as the bit pattern of an IEEE 754 double.
pub type Gain = u64;

/// A detune, in cents.
pub type Detune = i32;

pub type Note = i8;

pub type Tone = u16;

pub type Volume = u8;

pub type Effect = u8;

pub type Speed = u32;

/// The number of amplitudes in a waveform table.
pub const WAVEFORM_SIZE: usize = 32;

/// The amplitudes of a waveform.
pub type WaveformTable = [u8; WAVEFORM_SIZE];

/// An image: `height` rows of `width` palette indices, row after row.
#[derive(Clone, Debug)]
pub struct Image {
    pub width: u32,
    pub height: u32,
    pub data: Vec<Color>,
}

impl Image {
    /// The pixel buffer holds exactly `width * height` indices.
    pub open spec fn wf(&self) -> bool {
        self.data@.len() == self.width * self.height
    }

    /// The pixels, row by row.
    pub open spec fn rows(&self) -> Seq<Seq<Color>> {
        crate::grid::chunk(self.data@, self.width as nat, self.height as nat)
    }
}

/// Where a tilemap takes its tiles from.
#[derive(Clone, Debug)]
pub enum ImageSource {
    /// An image of the engine's image pool, by index.
    Index(u32),
    /// An image of the tilemap's own.
    Image(Image),
}

/// A tilemap: `height` rows of `width` tiles, each a (x, y) coordinate pair.
#[derive(Clone, Debug)]
pub struct Tilemap {
    pub width: u32,
    pub height: u32,
    pub imgsrc: ImageSource,
    pub data: Vec<(TileCoord, TileCoord)>,
}

impl Tilemap {
    /// The tile buffer holds exactly `width * height` pairs, and a row of
    /// interleaved coordinates (`2 * width` of them) has a length that a
    /// `usize` can hold.
    pub open spec fn wf(&self) -> bool {
        &&& self.data@.len() == self.width * self.height
        &&& 2 * self.width <= usize::MAX
    }

    /// The tiles, row by row.
    pub open spec fn rows(&self) -> Seq<Seq<(TileCoord, TileCoord)>> {
        crate::grid::chunk(self.data@, self.width as nat, self.height as nat)
    }
}

/// The noise of a waveform.
#[derive(Clone, Copy, Debug, PartialEq, Eq, Structural)]
pub enum Noise {
    Off,
    ShortPeriod,
    LongPeriod,
}

impl Noise {
    /// The index that stands for a noise.
    pub open spec fn spec_index(self) -> u32 {
        match self {
            Noise::Off => 0,
            Noise::ShortPeriod => 1,
            Noise::LongPeriod => 2,
        }
    }

    /// The noise that an index stands for, if any.
    pub open spec fn spec_from_index(index: u32) -> Option<Noise> {
        if index == 0 {
            Some(Noise::Off)
        } else if index == 1 {
            Some(Noise::ShortPeriod)
        } else if index == 2 {
            Some(Noise::LongPeriod)
        } else {
            None
        }
    }

    pub fn to_index(self) -> (r: u32)
        ensures
            r == self.spec_index(),
    {
        match self {
            Noise::Off => 0,
            Noise::ShortPeriod => 1,
            Noise::LongPeriod => 2,
        }
    }

    /// The noise that `index` stands for; `None` past the last one.
    pub fn from_index(index: u32) -> (r: Option<Noise>)
        ensures
            r == Self::spec_from_index(index),
    {
        if index == 0 {
            Some(Noise::Off)
        } else if index == 1 {
            Some(Noise::ShortPeriod)
        } else if index == 2 {
            Some(Noise::LongPeriod)
        } else {
            None
        }
    }
}

/// Every noise comes back from its index, and an index comes back from the
/// noise it stands for; indices past the last noise stand for none.
pub proof fn lemma_noise_index(noise: Noise, index: u32)
    ensures
        Noise::spec_from_index(noise.spec_index()) == Some(noise),
        Noise::spec_from_index(index) matches Some(n) ==> n.spec_index() == index,
        index > 2 ==> Noise::spec_from_index(index) is None,
{
}

/// A waveform: a gain, a noise and a table of amplitudes.
#[derive(Clone, Copy, Debug)]
pub struct Waveform {
    pub gain: Gain,
    pub noise: Noise,
    pub table: WaveformTable,
}

/// A sound channel's settings.
#[derive(Clone, Copy, Debug)]
pub struct Channel {
    pub gain: Gain,
    pub detune: Detune,
}

/// A sound: four sequences aligned by position, and a speed.
#[derive(Clone, Debug)]
pub struct Sound {
    pub notes: Vec<Note>,
    pub tones: Vec<Tone>,
    pub volumes: Vec<Volume>,
    pub effects: Vec<Effect>,
    pub speed: Speed,
}

/// A music: one sequence of sound indices per channel.
#[derive(Clone, Debug)]
pub struct Music {
    pub seqs: Vec<Vec<u32>>,
}

/// The engine's resource pools.
#[derive(Clone, Debug)]
pub struct Pyxel {
    pub colors: Vec<Rgb24>,
    pub images: Vec<Image>,
    pub tilemaps: Vec<Tilemap>,
    pub channels: Vec<Channel>,
    pub sounds: Vec<Sound>,
    pub musics: Vec<Music>,
    pub waveforms: Vec<Waveform>,
}

impl Pyxel {
    /// Every image and tilemap of the pools is well formed.
    pub open spec fn wf(&self) -> bool {
        &&& forall|i: int| 0 <= i < self.images@.len() ==> (#[trigger] self.images@[i]).wf()
        &&& forall|i: int| 0 <= i < self.tilemaps@.len() ==> (#[trigger] self.tilemaps@[i]).wf()
    }
}

/// A copy of `v`.
pub fn copy_vec<T: Copy>(v: &Vec<T>) -> (r: Vec<T>)
    ensures
        r@ == v@,
{
    let mut r: Vec<T> = Vec::new();
    let mut i: usize = 0;
    while i < v.len()
        invariant
            i <= v.len(),
            r@ == v@.take(i as int),
        decreases v.len() - i,
    {
        r.push(v[i]);
        i = i + 1;
        assert(r@ =~= v@.take(i as int));
    }
    assert(v@.take(i as int) =~= v@);
    r
}

} // verus!
