//! One record per resource category: the plain values that a snapshot keeps
//! of a live resource, and the conversions both ways.
use vstd::prelude::*;
use crate::grid::{cells, chunk, compress, compressed, expand, expand_ok, expanded, is_rect};
use crate::runtime::{
    copy_vec, Channel, Color, Detune, Effect, Gain, Image, ImageSource, Music, Noise, Note, Sound,
    Speed, TileCoord, Tilemap, Tone, Volume, Waveform, WaveformTable,
};

verus! {

/// What can go wrong when a snapshot is turned back into resources.
#[derive(Clone, Copy, Debug, PartialEq, Eq, Structural)]
pub enum ResourceError {
    /// A palette entry is no base-16 number.
    InvalidColor,
    /// A compressed grid cannot stand for a grid of the stated size.
    InvalidGrid,
    /// A noise index stands for no noise.
    InvalidNoise,
}

/// `d` followed by the items of `row`.
fn append_row<T: Copy>(d: &mut Vec<T>, row: &Vec<T>)
    ensures
        final(d)@ == old(d)@ + row@,
{
    let mut j: usize = 0;
    let ghost start = d@;
    while j < row.len()
        invariant
            j <= row.len(),
            d@ == start + row@.take(j as int),
        decreases row.len() - j,
    {
        d.push(row[j]);
        j = j + 1;
        assert(d@ =~= start + row@.take(j as int));
    }
    assert(row@.take(j as int) =~= row@);
}

/// A copy of the items `start .. start + n` of `d`.
fn copy_range<T: Copy>(d: &Vec<T>, start: usize, n: usize) -> (r: Vec<T>)
    requires
        start + n <= d.len(),
    ensures
        r@ == d@.subrange(start as int, start + n),
{
    let mut r: Vec<T> = Vec::new();
    let mut j: usize = 0;
    while j < n
        invariant
            j <= n,
            start + n <= d.len(),
            r@ == d@.subrange(start as int, start + j),
        decreases n - j,
    {
        r.push(d[start + j]);
        j = j + 1;
        assert(r@ =~= d@.subrange(start as int, start + j));
    }
    r
}

/// A snapshot's record of an image: its size and its compressed rows.
#[derive(Clone, Debug)]
pub struct ImageData {
    pub width: u32,
    pub height: u32,
    pub data: Vec<Vec<Color>>,
}

impl ImageData {
    /// The compressed rows.
    pub open spec fn grid(&self) -> Seq<Seq<Color>> {
        cells(self.data@)
    }

    /// This record is what exporting `image` gives.
    pub open spec fn exports(&self, image: Image) -> bool {
        &&& self.width == image.width
        &&& self.height == image.height
        &&& self.grid() == compressed(image.rows())
    }

    /// The compressed rows can stand for an image of the stated size.
    pub open spec fn restorable(&self) -> bool {
        expand_ok(self.grid(), self.height as nat, self.width as nat)
    }

    /// `image` is what importing this record gives.
    pub open spec fn restores(&self, image: Image) -> bool {
        &&& image.wf()
        &&& image.width == self.width
        &&& image.height == self.height
        &&& image.rows() == expanded(self.grid(), self.height as nat, self.width as nat)
    }

    /// Cuts the image's pixels into rows and compresses them.
    pub fn from_image(image: &Image) -> (r: Self)
        requires
            image.wf(),
        ensures
            r.exports(*image),
    {
        let w = image.width as usize;
        let h = image.height as usize;
        let ghost g = image.rows();
        let mut rows: Vec<Vec<Color>> = Vec::new();
        let mut k: usize = 0;
        let mut i: usize = 0;
        while i < h
            invariant
                image.wf(),
                w == image.width,
                h == image.height,
                g == image.rows(),
                i <= h,
                k == i * w,
                rows.len() == i,
                cells(rows@) == g.take(i as int),
            decreases h - i,
        {
            proof {
                assert(i * w + w <= w * h) by (nonlinear_arith)
                    requires
                        i < h,
                ;
            }
            assert(k + w <= image.data.len());
            let row = copy_range(&image.data, k, w);
            rows.push(row);
            proof {
                assert((i + 1) * w == i * w + w) by (nonlinear_arith);
            }
            k = k + w;
            i = i + 1;
            assert(cells(rows@) =~= g.take(i as int));
        }
        assert(g.take(h as int) =~= g);
        let data = compress(&rows);
        ImageData { width: image.width, height: image.height, data }
    }

    /// Expands the rows and lays them end to end in a new image; an error
    /// where the rows cannot stand for an image of the stated size.
    pub fn to_image(&self) -> (r: Result<Image, ResourceError>)
        ensures
            r is Ok <==> self.restorable(),
            r matches Ok(image) ==> self.restores(image),
            r matches Err(e) ==> e == ResourceError::InvalidGrid,
    {
        let w = self.width as usize;
        let h = self.height as usize;
        let rows = match expand(&self.data, h, w) {
            Some(rows) => rows,
            None => {
                return Err(ResourceError::InvalidGrid);
            },
        };
        let ghost g = cells(rows@);
        let mut data: Vec<Color> = Vec::new();
        let mut i: usize = 0;
        while i < h
            invariant
                i <= h,
                rows.len() == h,
                g == cells(rows@),
                is_rect(g, w as nat),
                data@.len() == i * w,
                chunk(data@, w as nat, i as nat) == g.take(i as int),
            decreases h - i,
        {
            let ghost before = data@;
            append_row(&mut data, &rows[i]);
            proof {
                assert(g[i as int] == rows@[i as int]@);
                crate::grid::lemma_chunk_push(before, rows@[i as int]@, w as nat, i as nat);
                assert(g.take(i as int).push(g[i as int]) =~= g.take(i + 1));
            }
            i = i + 1;
        }
        assert(g.take(h as int) =~= g);
        assert(h * w == w * h) by (nonlinear_arith);
        Ok(Image { width: self.width, height: self.height, data })
    }
}

/// Importing the export of an image gives the same size and the same pixels.
pub proof fn lemma_image_round_trip(image: Image, d: ImageData, back: Image)
    requires
        image.wf(),
        d.exports(image),
    ensures
        d.restorable(),
        d.restores(back) ==> back.width == image.width && back.height == image.height
            && back.data@ == image.data@,
{
    crate::grid::lemma_chunk_rect(image.data@, image.width as nat, image.height as nat);
    crate::grid::lemma_codec_round_trip(image.rows(), image.height as nat, image.width as nat);
    if d.restores(back) {
        crate::grid::lemma_chunk_injective(
            back.data@,
            image.data@,
            image.width as nat,
            image.height as nat,
        );
    }
}

/// A row of tiles as coordinates: x and y of each tile in turn.
pub open spec fn interleave(r: Seq<(TileCoord, TileCoord)>) -> Seq<TileCoord> {
    Seq::new(2 * r.len(), |k: int| if k % 2 == 0 { r[k / 2].0 } else { r[k / 2].1 })
}

/// A row of coordinates as tiles: each two coordinates in turn make a tile.
pub open spec fn pairs(r: Seq<TileCoord>) -> Seq<(TileCoord, TileCoord)> {
    Seq::new(r.len() / 2, |j: int| (r[2 * j], r[2 * j + 1]))
}

/// The image index that a snapshot keeps of a tile source: the index
/// itself, or 0 for an image of the tilemap's own.
pub open spec fn image_index(src: ImageSource) -> u32 {
    match src {
        ImageSource::Index(v) => v,
        ImageSource::Image(_) => 0,
    }
}

proof fn lemma_pairs_interleave(r: Seq<(TileCoord, TileCoord)>)
    ensures
        pairs(interleave(r)) == r,
        interleave(r).len() == 2 * r.len(),
{
    assert(pairs(interleave(r)) =~= r);
}

/// The coordinates of the tiles `start .. start + n` of `d`, interleaved.
fn interleaved_range(d: &Vec<(TileCoord, TileCoord)>, start: usize, n: usize) -> (r: Vec<TileCoord>)
    requires
        start + n <= d.len(),
    ensures
        r@ == interleave(d@.subrange(start as int, start + n)),
{
    let mut r: Vec<TileCoord> = Vec::new();
    let mut j: usize = 0;
    while j < n
        invariant
            j <= n,
            start + n <= d.len(),
            r@ == interleave(d@.subrange(start as int, start + j)),
        decreases n - j,
    {
        let p = d[start + j];
        r.push(p.0);
        r.push(p.1);
        j = j + 1;
        assert(r@ =~= interleave(d@.subrange(start as int, start + j)));
    }
    r
}

/// The tiles that a row of interleaved coordinates holds.
fn pairs_of_row(row: &Vec<TileCoord>) -> (r: Vec<(TileCoord, TileCoord)>)
    ensures
        r@ == pairs(row@),
{
    let n = row.len() / 2;
    let mut r: Vec<(TileCoord, TileCoord)> = Vec::new();
    let mut j: usize = 0;
    while j < n
        invariant
            j <= n,
            n == row.len() / 2,
            r@ == pairs(row@).take(j as int),
        decreases n - j,
    {
        r.push((row[2 * j], row[2 * j + 1]));
        j = j + 1;
        assert(r@ =~= pairs(row@).take(j as int));
    }
    assert(r@ =~= pairs(row@));
    r
}

/// A snapshot's record of a tilemap: its size, the index of its image, and
/// its compressed rows of interleaved coordinates.
#[derive(Clone, Debug)]
pub struct TilemapData {
    pub width: u32,
    pub height: u32,
    pub imgsrc: u32,
    pub data: Vec<Vec<TileCoord>>,
}

impl TilemapData {
    /// The compressed rows.
    pub open spec fn grid(&self) -> Seq<Seq<TileCoord>> {
        cells(self.data@)
    }

    /// This record is what exporting `tilemap` gives.
    pub open spec fn exports(&self, tilemap: Tilemap) -> bool {
        &&& self.width == tilemap.width
        &&& self.height == tilemap.height
        &&& self.imgsrc == image_index(tilemap.imgsrc)
        &&& self.grid() == compressed(tilemap.rows().map_values(|r: Seq<(TileCoord, TileCoord)>| interleave(r)))
    }

    /// The compressed rows can stand for a tilemap of the stated size.
    pub open spec fn restorable(&self) -> bool {
        &&& 2 * self.width <= usize::MAX
        &&& expand_ok(self.grid(), self.height as nat, 2 * self.width as nat)
    }

    /// `tilemap` is what importing this record gives.
    pub open spec fn restores(&self, tilemap: Tilemap) -> bool {
        &&& tilemap.wf()
        &&& tilemap.width == self.width
        &&& tilemap.height == self.height
        &&& tilemap.imgsrc == ImageSource::Index(self.imgsrc)
        &&& tilemap.rows() == expanded(self.grid(), self.height as nat, 2 * self.width as nat).map_values(
            |r: Seq<TileCoord>| pairs(r),
        )
    }

    /// Interleaves the coordinates of each row of tiles and compresses the
    /// rows; a tile source other than an index is kept as index 0.
    pub fn from_tilemap(tilemap: &Tilemap) -> (r: Self)
        requires
            tilemap.wf(),
        ensures
            r.exports(*tilemap),
    {
        let w = tilemap.width as usize;
        let h = tilemap.height as usize;
        let ghost g = tilemap.rows().map_values(|r: Seq<(TileCoord, TileCoord)>| interleave(r));
        let mut rows: Vec<Vec<TileCoord>> = Vec::new();
        let mut k: usize = 0;
        let mut i: usize = 0;
        while i < h
            invariant
                tilemap.wf(),
                w == tilemap.width,
                h == tilemap.height,
                g == tilemap.rows().map_values(|r: Seq<(TileCoord, TileCoord)>| interleave(r)),
                i <= h,
                k == i * w,
                rows.len() == i,
                cells(rows@) == g.take(i as int),
            decreases h - i,
        {
            proof {
                assert(i * w + w <= w * h) by (nonlinear_arith)
                    requires
                        i < h,
                ;
            }
            assert(k + w <= tilemap.data.len());
            let row = interleaved_range(&tilemap.data, k, w);
            rows.push(row);
            proof {
                assert((i + 1) * w == i * w + w) by (nonlinear_arith);
            }
            k = k + w;
            i = i + 1;
            assert(cells(rows@) =~= g.take(i as int));
        }
        assert(g.take(h as int) =~= g);
        let data = compress(&rows);
        let imgsrc = match &tilemap.imgsrc {
            ImageSource::Index(v) => *v,
            ImageSource::Image(_) => 0,
        };
        TilemapData { width: tilemap.width, height: tilemap.height, imgsrc, data }
    }

    /// Expands the rows and regroups their coordinates into tiles of a new
    /// tilemap that takes its tiles from image `imgsrc`; an error where the
    /// rows cannot stand for a tilemap of the stated size.
    pub fn to_tilemap(&self) -> (r: Result<Tilemap, ResourceError>)
        ensures
            r is Ok <==> self.restorable(),
            r matches Ok(tilemap) ==> self.restores(tilemap),
            r matches Err(e) ==> e == ResourceError::InvalidGrid,
    {
        if self.width as u64 * 2 > usize::MAX as u64 {
            return Err(ResourceError::InvalidGrid);
        }
        let w = self.width as usize;
        let h = self.height as usize;
        let rows = match expand(&self.data, h, w * 2) {
            Some(rows) => rows,
            None => {
                return Err(ResourceError::InvalidGrid);
            },
        };
        let ghost g = cells(rows@);
        let ghost p = g.map_values(|r: Seq<TileCoord>| pairs(r));
        let mut data: Vec<(TileCoord, TileCoord)> = Vec::new();
        let mut i: usize = 0;
        while i < h
            invariant
                i <= h,
                rows.len() == h,
                g == cells(rows@),
                p == g.map_values(|r: Seq<TileCoord>| pairs(r)),
                is_rect(g, 2 * w as nat),
                data@.len() == i * w,
                chunk(data@, w as nat, i as nat) == p.take(i as int),
            decreases h - i,
        {
            let ghost before = data@;
            let tiles = pairs_of_row(&rows[i]);
            append_row(&mut data, &tiles);
            proof {
                assert(g[i as int] == rows@[i as int]@);
                assert(p[i as int] == tiles@);
                crate::grid::lemma_chunk_push(before, tiles@, w as nat, i as nat);
                assert(p.take(i as int).push(p[i as int]) =~= p.take(i + 1));
            }
            i = i + 1;
        }
        assert(p.take(h as int) =~= p);
        assert(h * w == w * h) by (nonlinear_arith);
        Ok(Tilemap { width: self.width, height: self.height, imgsrc: ImageSource::Index(self.imgsrc), data })
    }
}

/// Importing the export of a tilemap gives the same size and every tile's
/// exact coordinate pair; the tile source comes back as the index kept.
pub proof fn lemma_tilemap_round_trip(tilemap: Tilemap, d: TilemapData, back: Tilemap)
    requires
        tilemap.wf(),
        d.exports(tilemap),
    ensures
        d.restorable(),
        d.restores(back) ==> back.width == tilemap.width && back.height == tilemap.height
            && back.data@ == tilemap.data@ && back.imgsrc == ImageSource::Index(
            image_index(tilemap.imgsrc),
        ),
{
    let w = tilemap.width as nat;
    let h = tilemap.height as nat;
    let rows = tilemap.rows();
    let g = rows.map_values(|r: Seq<(TileCoord, TileCoord)>| interleave(r));
    crate::grid::lemma_chunk_rect(tilemap.data@, w, h);
    assert forall|i: int| 0 <= i < g.len() implies (#[trigger] g[i]).len() == 2 * w by {
        lemma_pairs_interleave(rows[i]);
    }
    crate::grid::lemma_codec_round_trip(g, h, 2 * w);
    if d.restores(back) {
        let p = g.map_values(|r: Seq<TileCoord>| pairs(r));
        assert forall|i: int| 0 <= i < rows.len() implies #[trigger] p[i] == rows[i] by {
            lemma_pairs_interleave(rows[i]);
        }
        assert(p =~= rows);
        crate::grid::lemma_chunk_injective(back.data@, tilemap.data@, w, h);
    }
}

/// A snapshot's record of a waveform: its gain, the index of its noise and
/// its table.
#[derive(Clone, Copy, Debug)]
pub struct WaveformData {
    pub gain: Gain,
    pub noise: u32,
    pub table: WaveformTable,
}

impl WaveformData {
    /// This record is what exporting `waveform` gives.
    pub open spec fn exports(&self, waveform: Waveform) -> bool {
        &&& self.gain == waveform.gain
        &&& self.noise == waveform.noise.spec_index()
        &&& self.table == waveform.table
    }

    /// The noise index stands for a noise.
    pub open spec fn restorable(&self) -> bool {
        Noise::spec_from_index(self.noise) is Some
    }

    /// `waveform` is what importing this record gives.
    pub open spec fn restores(&self, waveform: Waveform) -> bool {
        &&& waveform.gain == self.gain
        &&& Noise::spec_from_index(self.noise) == Some(waveform.noise)
        &&& waveform.table == self.table
    }

    pub fn from_waveform(waveform: &Waveform) -> (r: Self)
        ensures
            r.exports(*waveform),
    {
        WaveformData { gain: waveform.gain, noise: waveform.noise.to_index(), table: waveform.table }
    }

    /// A new waveform with this record's values; an error where the noise
    /// index stands for no noise.
    pub fn to_waveform(&self) -> (r: Result<Waveform, ResourceError>)
        ensures
            r is Ok <==> self.restorable(),
            r matches Ok(waveform) ==> self.restores(waveform),
            r matches Err(e) ==> e == ResourceError::InvalidNoise,
    {
        match Noise::from_index(self.noise) {
            Some(noise) => Ok(Waveform { gain: self.gain, noise, table: self.table }),
            None => Err(ResourceError::InvalidNoise),
        }
    }
}

/// A snapshot's record of a channel.
#[derive(Clone, Copy, Debug)]
pub struct ChannelData {
    pub gain: Gain,
    pub detune: Detune,
}

impl ChannelData {
    /// This record is what exporting `channel` gives.
    pub open spec fn exports(&self, channel: Channel) -> bool {
        self.gain == channel.gain && self.detune == channel.detune
    }

    /// `channel` is what importing this record gives.
    pub open spec fn restores(&self, channel: Channel) -> bool {
        channel.gain == self.gain && channel.detune == self.detune
    }

    pub fn from_channel(channel: &Channel) -> (r: Self)
        ensures
            r.exports(*channel),
    {
        ChannelData { gain: channel.gain, detune: channel.detune }
    }

    pub fn to_channel(&self) -> (r: Channel)
        ensures
            self.restores(r),
    {
        Channel { gain: self.gain, detune: self.detune }
    }
}

/// A snapshot's record of a sound: its four sequences and its speed, as they
/// are.
#[derive(Clone, Debug)]
pub struct SoundData {
    pub notes: Vec<Note>,
    pub tones: Vec<Tone>,
    pub volumes: Vec<Volume>,
    pub effects: Vec<Effect>,
    pub speed: Speed,
}

impl SoundData {
    /// This record is what exporting `sound` gives.
    pub open spec fn exports(&self, sound: Sound) -> bool {
        &&& self.notes@ == sound.notes@
        &&& self.tones@ == sound.tones@
        &&& self.volumes@ == sound.volumes@
        &&& self.effects@ == sound.effects@
        &&& self.speed == sound.speed
    }

    /// `sound` is what importing this record gives.
    pub open spec fn restores(&self, sound: Sound) -> bool {
        &&& sound.notes@ == self.notes@
        &&& sound.tones@ == self.tones@
        &&& sound.volumes@ == self.volumes@
        &&& sound.effects@ == self.effects@
        &&& sound.speed == self.speed
    }

    pub fn from_sound(sound: &Sound) -> (r: Self)
        ensures
            r.exports(*sound),
    {
        SoundData {
            notes: copy_vec(&sound.notes),
            tones: copy_vec(&sound.tones),
            volumes: copy_vec(&sound.volumes),
            effects: copy_vec(&sound.effects),
            speed: sound.speed,
        }
    }

    pub fn to_sound(&self) -> (r: Sound)
        ensures
            self.restores(r),
    {
        Sound {
            notes: copy_vec(&self.notes),
            tones: copy_vec(&self.tones),
            volumes: copy_vec(&self.volumes),
            effects: copy_vec(&self.effects),
            speed: self.speed,
        }
    }
}

/// A copy of each list of `g`.
fn copy_lists<T: Copy>(g: &Vec<Vec<T>>) -> (r: Vec<Vec<T>>)
    ensures
        cells(r@) == cells(g@),
{
    let mut r: Vec<Vec<T>> = Vec::new();
    let mut i: usize = 0;
    while i < g.len()
        invariant
            i <= g.len(),
            r.len() == i,
            cells(r@) == cells(g@).take(i as int),
        decreases g.len() - i,
    {
        r.push(copy_vec(&g[i]));
        i = i + 1;
        assert(cells(r@) =~= cells(g@).take(i as int));
    }
    assert(cells(g@).take(i as int) =~= cells(g@));
    r
}

/// A snapshot's record of a music: its sequences of sound indices.
#[derive(Clone, Debug)]
pub struct MusicData {
    pub seqs: Vec<Vec<u32>>,
}

impl MusicData {
    /// This record is what exporting `music` gives.
    pub open spec fn exports(&self, music: Music) -> bool {
        cells(self.seqs@) == cells(music.seqs@)
    }

    /// `music` is what importing this record gives.
    pub open spec fn restores(&self, music: Music) -> bool {
        cells(music.seqs@) == cells(self.seqs@)
    }

    /// Copies each sequence of the music.
    pub fn from_music(music: &Music) -> (r: Self)
        ensures
            r.exports(*music),
    {
        MusicData { seqs: copy_lists(&music.seqs) }
    }

    /// A new music with a sequence of its own for each list of the record.
    pub fn to_music(&self) -> (r: Music)
        ensures
            self.restores(r),
    {
        Music { seqs: copy_lists(&self.seqs) }
    }
}

} // verus!
