//! The snapshot of all resource pools: capturing it from the engine,
//! applying it back to the engine, and keeping only selected categories.
//!
//! Seven flags select categories, the same for both directions: images,
//! tilemaps, sounds and musics take part unless excluded; colors, channels
//! and waveforms only when included.
use vstd::prelude::*;
use crate::color::{color_from_hex, color_to_hex, hex_upper, lemma_color_round_trip, parse_hex};
use crate::resource::{
    image_index, lemma_image_round_trip, lemma_tilemap_round_trip, ChannelData, ImageData, MusicData, ResourceError, SoundData, TilemapData, WaveformData,
};
use crate::grid::cells;
use crate::runtime::{
    lemma_noise_index, Channel, Image, ImageSource, Music, Pyxel, Rgb24, Sound, Tilemap, Waveform,
};

verus! {

/// The version of the snapshot format that this library writes.
pub const RESOURCE_FORMAT_VERSION: u32 = 1;

/// The seven flags that select categories.
#[derive(Clone, Copy, Debug, PartialEq, Eq, Structural)]
pub struct Selection {
    pub exclude_images: bool,
    pub exclude_tilemaps: bool,
    pub exclude_sounds: bool,
    pub exclude_musics: bool,
    pub include_colors: bool,
    pub include_channels: bool,
    pub include_waveforms: bool,
}

/// The selection that the seven flags make.
pub open spec fn selection(
    exclude_images: bool,
    exclude_tilemaps: bool,
    exclude_sounds: bool,
    exclude_musics: bool,
    include_colors: bool,
    include_channels: bool,
    include_waveforms: bool,
) -> Selection {
    Selection {
        exclude_images,
        exclude_tilemaps,
        exclude_sounds,
        exclude_musics,
        include_colors,
        include_channels,
        include_waveforms,
    }
}

/// A snapshot: the format version and one list per category.
#[derive(Clone, Debug)]
pub struct ResourceData {
    pub format_version: u32,
    pub colors: Vec<String>,
    pub images: Vec<ImageData>,
    pub tilemaps: Vec<TilemapData>,
    pub channels: Vec<ChannelData>,
    pub sounds: Vec<SoundData>,
    pub musics: Vec<MusicData>,
    pub waveforms: Vec<WaveformData>,
}

impl ResourceData {
    /// This snapshot is what capturing `p` gives.
    pub open spec fn captures(&self, p: Pyxel) -> bool {
        &&& self.format_version == RESOURCE_FORMAT_VERSION
        &&& self.colors@.len() == p.colors@.len()
        &&& forall|i: int|
            0 <= i < p.colors@.len() ==> (#[trigger] self.colors@[i])@ == hex_upper(
                p.colors@[i] as nat,
                6,
            )
        &&& self.images@.len() == p.images@.len()
        &&& forall|i: int| 0 <= i < p.images@.len() ==> (#[trigger] self.images@[i]).exports(p.images@[i])
        &&& self.tilemaps@.len() == p.tilemaps@.len()
        &&& forall|i: int|
            0 <= i < p.tilemaps@.len() ==> (#[trigger] self.tilemaps@[i]).exports(p.tilemaps@[i])
        &&& self.channels@.len() == p.channels@.len()
        &&& forall|i: int|
            0 <= i < p.channels@.len() ==> (#[trigger] self.channels@[i]).exports(p.channels@[i])
        &&& self.sounds@.len() == p.sounds@.len()
        &&& forall|i: int| 0 <= i < p.sounds@.len() ==> (#[trigger] self.sounds@[i]).exports(p.sounds@[i])
        &&& self.musics@.len() == p.musics@.len()
        &&& forall|i: int| 0 <= i < p.musics@.len() ==> (#[trigger] self.musics@[i]).exports(p.musics@[i])
        &&& self.waveforms@.len() == p.waveforms@.len()
        &&& forall|i: int|
            0 <= i < p.waveforms@.len() ==> (#[trigger] self.waveforms@[i]).exports(p.waveforms@[i])
    }

    /// Every palette entry is a base-16 number.
    pub open spec fn colors_ok(&self) -> bool {
        forall|i: int| 0 <= i < self.colors@.len() ==> parse_hex((#[trigger] self.colors@[i])@) is Some
    }

    /// The palette entries as numbers.
    pub open spec fn decoded_colors(&self) -> Seq<Rgb24> {
        self.colors@.map_values(|s: String| parse_hex(s@).unwrap())
    }

    pub open spec fn images_ok(&self) -> bool {
        forall|i: int| 0 <= i < self.images@.len() ==> (#[trigger] self.images@[i]).restorable()
    }

    pub open spec fn tilemaps_ok(&self) -> bool {
        forall|i: int| 0 <= i < self.tilemaps@.len() ==> (#[trigger] self.tilemaps@[i]).restorable()
    }

    pub open spec fn waveforms_ok(&self) -> bool {
        forall|i: int| 0 <= i < self.waveforms@.len() ==> (#[trigger] self.waveforms@[i]).restorable()
    }

    /// The error that applying the categories of `sel` meets first, if any:
    /// colors, then images, tilemaps and waveforms.
    pub open spec fn decode_error(&self, sel: Selection) -> Option<ResourceError> {
        if sel.include_colors && !self.colors_ok() {
            Some(ResourceError::InvalidColor)
        } else if !sel.exclude_images && !self.images_ok() {
            Some(ResourceError::InvalidGrid)
        } else if !sel.exclude_tilemaps && !self.tilemaps_ok() {
            Some(ResourceError::InvalidGrid)
        } else if sel.include_waveforms && !self.waveforms_ok() {
            Some(ResourceError::InvalidNoise)
        } else {
            None
        }
    }

    /// `after` is `before` with each category that `sel` selects and that
    /// this snapshot holds replaced by the snapshot's, and the others kept.
    pub open spec fn applied(&self, sel: Selection, before: Pyxel, after: Pyxel) -> bool {
        &&& after.colors@ == if sel.include_colors && self.colors@.len() > 0 {
            self.decoded_colors()
        } else {
            before.colors@
        }
        &&& if !sel.exclude_images && self.images@.len() > 0 {
            &&& after.images@.len() == self.images@.len()
            &&& forall|i: int|
                0 <= i < self.images@.len() ==> (#[trigger] self.images@[i]).restores(after.images@[i])
        } else {
            after.images@ == before.images@
        }
        &&& if !sel.exclude_tilemaps && self.tilemaps@.len() > 0 {
            &&& after.tilemaps@.len() == self.tilemaps@.len()
            &&& forall|i: int|
                0 <= i < self.tilemaps@.len() ==> (#[trigger] self.tilemaps@[i]).restores(
                    after.tilemaps@[i],
                )
        } else {
            after.tilemaps@ == before.tilemaps@
        }
        &&& if sel.include_channels && self.channels@.len() > 0 {
            &&& after.channels@.len() == self.channels@.len()
            &&& forall|i: int|
                0 <= i < self.channels@.len() ==> (#[trigger] self.channels@[i]).restores(
                    after.channels@[i],
                )
        } else {
            after.channels@ == before.channels@
        }
        &&& if !sel.exclude_sounds && self.sounds@.len() > 0 {
            &&& after.sounds@.len() == self.sounds@.len()
            &&& forall|i: int|
                0 <= i < self.sounds@.len() ==> (#[trigger] self.sounds@[i]).restores(after.sounds@[i])
        } else {
            after.sounds@ == before.sounds@
        }
        &&& if !sel.exclude_musics && self.musics@.len() > 0 {
            &&& after.musics@.len() == self.musics@.len()
            &&& forall|i: int|
                0 <= i < self.musics@.len() ==> (#[trigger] self.musics@[i]).restores(after.musics@[i])
        } else {
            after.musics@ == before.musics@
        }
        &&& if sel.include_waveforms && self.waveforms@.len() > 0 {
            &&& after.waveforms@.len() == self.waveforms@.len()
            &&& forall|i: int|
                0 <= i < self.waveforms@.len() ==> (#[trigger] self.waveforms@[i]).restores(
                    after.waveforms@[i],
                )
        } else {
            after.waveforms@ == before.waveforms@
        }
    }

    /// This snapshot is `orig` with the lists of the categories that `sel`
    /// leaves out emptied.
    pub open spec fn keeps(&self, orig: ResourceData, sel: Selection) -> bool {
        &&& self.format_version == orig.format_version
        &&& self.colors@ == if sel.include_colors { orig.colors@ } else { Seq::empty() }
        &&& self.images@ == if !sel.exclude_images { orig.images@ } else { Seq::empty() }
        &&& self.tilemaps@ == if !sel.exclude_tilemaps { orig.tilemaps@ } else { Seq::empty() }
        &&& self.channels@ == if sel.include_channels { orig.channels@ } else { Seq::empty() }
        &&& self.sounds@ == if !sel.exclude_sounds { orig.sounds@ } else { Seq::empty() }
        &&& self.musics@ == if !sel.exclude_musics { orig.musics@ } else { Seq::empty() }
        &&& self.waveforms@ == if sel.include_waveforms { orig.waveforms@ } else { Seq::empty() }
    }

    /// Captures every pool of the engine, stamped with the current format
    /// version.
    pub fn from_runtime(pyxel: &Pyxel) -> (r: Self)
        requires
            pyxel.wf(),
        ensures
            r.captures(*pyxel),
    {
        let mut colors: Vec<String> = Vec::new();
        let mut i: usize = 0;
        while i < pyxel.colors.len()
            invariant
                i <= pyxel.colors.len(),
                colors@.len() == i,
                forall|k: int| 0 <= k < i ==> (#[trigger] colors@[k])@ == hex_upper(pyxel.colors@[k] as nat, 6),
            decreases pyxel.colors.len() - i,
        {
            colors.push(color_to_hex(pyxel.colors[i]));
            i = i + 1;
        }
        let mut images: Vec<ImageData> = Vec::new();
        let mut i: usize = 0;
        while i < pyxel.images.len()
            invariant
                pyxel.wf(),
                i <= pyxel.images.len(),
                images@.len() == i,
                forall|k: int| 0 <= k < i ==> (#[trigger] images@[k]).exports(pyxel.images@[k]),
            decreases pyxel.images.len() - i,
        {
            assert(pyxel.images@[i as int].wf());
            images.push(ImageData::from_image(&pyxel.images[i]));
            i = i + 1;
        }
        let mut tilemaps: Vec<TilemapData> = Vec::new();
        let mut i: usize = 0;
        while i < pyxel.tilemaps.len()
            invariant
                pyxel.wf(),
                i <= pyxel.tilemaps.len(),
                tilemaps@.len() == i,
                forall|k: int| 0 <= k < i ==> (#[trigger] tilemaps@[k]).exports(pyxel.tilemaps@[k]),
            decreases pyxel.tilemaps.len() - i,
        {
            assert(pyxel.tilemaps@[i as int].wf());
            tilemaps.push(TilemapData::from_tilemap(&pyxel.tilemaps[i]));
            i = i + 1;
        }
        let mut channels: Vec<ChannelData> = Vec::new();
        let mut i: usize = 0;
        while i < pyxel.channels.len()
            invariant
                i <= pyxel.channels.len(),
                channels@.len() == i,
                forall|k: int| 0 <= k < i ==> (#[trigger] channels@[k]).exports(pyxel.channels@[k]),
            decreases pyxel.channels.len() - i,
        {
            channels.push(ChannelData::from_channel(&pyxel.channels[i]));
            i = i + 1;
        }
        let mut sounds: Vec<SoundData> = Vec::new();
        let mut i: usize = 0;
        while i < pyxel.sounds.len()
            invariant
                i <= pyxel.sounds.len(),
                sounds@.len() == i,
                forall|k: int| 0 <= k < i ==> (#[trigger] sounds@[k]).exports(pyxel.sounds@[k]),
            decreases pyxel.sounds.len() - i,
        {
            sounds.push(SoundData::from_sound(&pyxel.sounds[i]));
            i = i + 1;
        }
        let mut musics: Vec<MusicData> = Vec::new();
        let mut i: usize = 0;
        while i < pyxel.musics.len()
            invariant
                i <= pyxel.musics.len(),
                musics@.len() == i,
                forall|k: int| 0 <= k < i ==> (#[trigger] musics@[k]).exports(pyxel.musics@[k]),
            decreases pyxel.musics.len() - i,
        {
            musics.push(MusicData::from_music(&pyxel.musics[i]));
            i = i + 1;
        }
        let mut waveforms: Vec<WaveformData> = Vec::new();
        let mut i: usize = 0;
        while i < pyxel.waveforms.len()
            invariant
                i <= pyxel.waveforms.len(),
                waveforms@.len() == i,
                forall|k: int| 0 <= k < i ==> (#[trigger] waveforms@[k]).exports(pyxel.waveforms@[k]),
            decreases pyxel.waveforms.len() - i,
        {
            waveforms.push(WaveformData::from_waveform(&pyxel.waveforms[i]));
            i = i + 1;
        }
        ResourceData {
            format_version: RESOURCE_FORMAT_VERSION,
            colors,
            images,
            tilemaps,
            channels,
            sounds,
            musics,
            waveforms,
        }
    }
    /// The palette entries as numbers; the first error where one is no
    /// base-16 number.
    fn decode_colors(&self) -> (r: Result<Vec<Rgb24>, ResourceError>)
        ensures
            r is Ok <==> self.colors_ok(),
            r matches Ok(v) ==> v@ == self.decoded_colors(),
            r matches Err(e) ==> e == ResourceError::InvalidColor,
    {
        let mut out: Vec<Rgb24> = Vec::new();
        let mut i: usize = 0;
        while i < self.colors.len()
            invariant
                i <= self.colors.len(),
                out@ == self.decoded_colors().take(i as int),
                forall|k: int| 0 <= k < i ==> parse_hex((#[trigger] self.colors@[k])@) is Some,
            decreases self.colors.len() - i,
        {
            match color_from_hex(&self.colors[i]) {
                Some(c) => {
                    out.push(c);
                },
                None => {
                    return Err(ResourceError::InvalidColor);
                },
            }
            i = i + 1;
            assert(out@ =~= self.decoded_colors().take(i as int));
        }
        assert(out@ =~= self.decoded_colors());
        Ok(out)
    }

    fn restore_images(&self) -> (r: Result<Vec<Image>, ResourceError>)
        ensures
            r is Ok <==> self.images_ok(),
            r matches Ok(v) ==> v@.len() == self.images@.len() && forall|i: int|
                0 <= i < v@.len() ==> (#[trigger] self.images@[i]).restores(v@[i]),
            r matches Ok(v) ==> forall|i: int| 0 <= i < v@.len() ==> (#[trigger] v@[i]).wf(),
            r matches Err(e) ==> e == ResourceError::InvalidGrid,
    {
        let mut out: Vec<Image> = Vec::new();
        let mut i: usize = 0;
        while i < self.images.len()
            invariant
                i <= self.images.len(),
                out@.len() == i,
                forall|k: int| 0 <= k < i ==> (#[trigger] self.images@[k]).restores(out@[k]),
                forall|k: int| 0 <= k < i ==> (#[trigger] self.images@[k]).restorable(),
            decreases self.images.len() - i,
        {
            match self.images[i].to_image() {
                Ok(image) => {
                    out.push(image);
                },
                Err(e) => {
                    assert(!self.images@[i as int].restorable());
                    return Err(e);
                },
            }
            i = i + 1;
        }
        assert forall|k: int| 0 <= k < out@.len() implies (#[trigger] out@[k]).wf() by {
            assert(self.images@[k].restores(out@[k]));
        }
        Ok(out)
    }

    fn restore_tilemaps(&self) -> (r: Result<Vec<Tilemap>, ResourceError>)
        ensures
            r is Ok <==> self.tilemaps_ok(),
            r matches Ok(v) ==> v@.len() == self.tilemaps@.len() && forall|i: int|
                0 <= i < v@.len() ==> (#[trigger] self.tilemaps@[i]).restores(v@[i]),
            r matches Ok(v) ==> forall|i: int| 0 <= i < v@.len() ==> (#[trigger] v@[i]).wf(),
            r matches Err(e) ==> e == ResourceError::InvalidGrid,
    {
        let mut out: Vec<Tilemap> = Vec::new();
        let mut i: usize = 0;
        while i < self.tilemaps.len()
            invariant
                i <= self.tilemaps.len(),
                out@.len() == i,
                forall|k: int| 0 <= k < i ==> (#[trigger] self.tilemaps@[k]).restores(out@[k]),
                forall|k: int| 0 <= k < i ==> (#[trigger] self.tilemaps@[k]).restorable(),
            decreases self.tilemaps.len() - i,
        {
            match self.tilemaps[i].to_tilemap() {
                Ok(tilemap) => {
                    out.push(tilemap);
                },
                Err(e) => {
                    assert(!self.tilemaps@[i as int].restorable());
                    return Err(e);
                },
            }
            i = i + 1;
        }
        assert forall|k: int| 0 <= k < out@.len() implies (#[trigger] out@[k]).wf() by {
            assert(self.tilemaps@[k].restores(out@[k]));
        }
        Ok(out)
    }

    fn restore_waveforms(&self) -> (r: Result<Vec<Waveform>, ResourceError>)
        ensures
            r is Ok <==> self.waveforms_ok(),
            r matches Ok(v) ==> v@.len() == self.waveforms@.len() && forall|i: int|
                0 <= i < v@.len() ==> (#[trigger] self.waveforms@[i]).restores(v@[i]),
            r matches Err(e) ==> e == ResourceError::InvalidNoise,
    {
        let mut out: Vec<Waveform> = Vec::new();
        let mut i: usize = 0;
        while i < self.waveforms.len()
            invariant
                i <= self.waveforms.len(),
                out@.len() == i,
                forall|k: int| 0 <= k < i ==> (#[trigger] self.waveforms@[k]).restores(out@[k]),
            decreases self.waveforms.len() - i,
        {
            match self.waveforms[i].to_waveform() {
                Ok(waveform) => {
                    out.push(waveform);
                },
                Err(e) => {
                    assert(!self.waveforms@[i as int].restorable());
                    return Err(e);
                },
            }
            i = i + 1;
        }
        Ok(out)
    }

    fn restore_channels(&self) -> (r: Vec<Channel>)
        ensures
            r@.len() == self.channels@.len(),
            forall|i: int| 0 <= i < r@.len() ==> (#[trigger] self.channels@[i]).restores(r@[i]),
    {
        let mut out: Vec<Channel> = Vec::new();
        let mut i: usize = 0;
        while i < self.channels.len()
            invariant
                i <= self.channels.len(),
                out@.len() == i,
                forall|k: int| 0 <= k < i ==> (#[trigger] self.channels@[k]).restores(out@[k]),
            decreases self.channels.len() - i,
        {
            out.push(self.channels[i].to_channel());
            i = i + 1;
        }
        out
    }

    fn restore_sounds(&self) -> (r: Vec<Sound>)
        ensures
            r@.len() == self.sounds@.len(),
            forall|i: int| 0 <= i < r@.len() ==> (#[trigger] self.sounds@[i]).restores(r@[i]),
    {
        let mut out: Vec<Sound> = Vec::new();
        let mut i: usize = 0;
        while i < self.sounds.len()
            invariant
                i <= self.sounds.len(),
                out@.len() == i,
                forall|k: int| 0 <= k < i ==> (#[trigger] self.sounds@[k]).restores(out@[k]),
            decreases self.sounds.len() - i,
        {
            out.push(self.sounds[i].to_sound());
            i = i + 1;
        }
        out
    }

    fn restore_musics(&self) -> (r: Vec<Music>)
        ensures
            r@.len() == self.musics@.len(),
            forall|i: int| 0 <= i < r@.len() ==> (#[trigger] self.musics@[i]).restores(r@[i]),
    {
        let mut out: Vec<Music> = Vec::new();
        let mut i: usize = 0;
        while i < self.musics.len()
            invariant
                i <= self.musics.len(),
                out@.len() == i,
                forall|k: int| 0 <= k < i ==> (#[trigger] self.musics@[k]).restores(out@[k]),
            decreases self.musics.len() - i,
        {
            out.push(self.musics[i].to_music());
            i = i + 1;
        }
        out
    }

    /// Replaces, as a whole, each pool of the engine whose category the
    /// flags select and whose list in this snapshot is not empty. Where a
    /// selected list cannot be decoded, the error comes back and no pool is
    /// touched.
    pub fn to_runtime(
        &self,
        pyxel: &mut Pyxel,
        exclude_images: bool,
        exclude_tilemaps: bool,
        exclude_sounds: bool,
        exclude_musics: bool,
        include_colors: bool,
        include_channels: bool,
        include_waveforms: bool,
    ) -> (r: Result<(), ResourceError>)
        ensures
            ({
                let sel = selection(
                    exclude_images,
                    exclude_tilemaps,
                    exclude_sounds,
                    exclude_musics,
                    include_colors,
                    include_channels,
                    include_waveforms,
                );
                &&& r == match self.decode_error(sel) {
                    Some(e) => Err(e),
                    None => Ok(()),
                }
                &&& r is Err ==> *final(pyxel) == *old(pyxel)
                &&& r is Ok ==> self.applied(sel, *old(pyxel), *final(pyxel))
                &&& old(pyxel).wf() ==> final(pyxel).wf()
            }),
    {
        let colors = if include_colors && self.colors.len() > 0 {
            match self.decode_colors() {
                Ok(v) => Some(v),
                Err(e) => {
                    return Err(e);
                },
            }
        } else {
            None
        };
        let images = if !exclude_images && self.images.len() > 0 {
            match self.restore_images() {
                Ok(v) => Some(v),
                Err(e) => {
                    return Err(e);
                },
            }
        } else {
            None
        };
        let tilemaps = if !exclude_tilemaps && self.tilemaps.len() > 0 {
            match self.restore_tilemaps() {
                Ok(v) => Some(v),
                Err(e) => {
                    return Err(e);
                },
            }
        } else {
            None
        };
        let waveforms = if include_waveforms && self.waveforms.len() > 0 {
            match self.restore_waveforms() {
                Ok(v) => Some(v),
                Err(e) => {
                    return Err(e);
                },
            }
        } else {
            None
        };
        if let Some(v) = colors {
            pyxel.colors = v;
        }
        if let Some(v) = images {
            pyxel.images = v;
        }
        if let Some(v) = tilemaps {
            pyxel.tilemaps = v;
        }
        if include_channels && self.channels.len() > 0 {
            pyxel.channels = self.restore_channels();
        }
        if !exclude_sounds && self.sounds.len() > 0 {
            pyxel.sounds = self.restore_sounds();
        }
        if !exclude_musics && self.musics.len() > 0 {
            pyxel.musics = self.restore_musics();
        }
        if let Some(v) = waveforms {
            pyxel.waveforms = v;
        }
        Ok(())
    }

    /// This snapshot with the lists of the categories that the flags leave
    /// out emptied; what is written out for those flags.
    pub fn select(
        self,
        exclude_images: bool,
        exclude_tilemaps: bool,
        exclude_sounds: bool,
        exclude_musics: bool,
        include_colors: bool,
        include_channels: bool,
        include_waveforms: bool,
    ) -> (r: ResourceData)
        ensures
            r.keeps(
                self,
                selection(
                    exclude_images,
                    exclude_tilemaps,
                    exclude_sounds,
                    exclude_musics,
                    include_colors,
                    include_channels,
                    include_waveforms,
                ),
            ),
    {
        let mut r = self;
        if !include_colors {
            r.colors = Vec::new();
        }
        if exclude_images {
            r.images = Vec::new();
        }
        if exclude_tilemaps {
            r.tilemaps = Vec::new();
        }
        if !include_channels {
            r.channels = Vec::new();
        }
        if exclude_sounds {
            r.sounds = Vec::new();
        }
        if exclude_musics {
            r.musics = Vec::new();
        }
        if !include_waveforms {
            r.waveforms = Vec::new();
        }
        r
    }
}

/// The selection of the images alone.
pub open spec fn images_only() -> Selection {
    selection(false, true, true, true, false, false, false)
}

/// The selection that no flag changes.
pub open spec fn default_selection() -> Selection {
    selection(false, false, false, false, false, false, false)
}

/// Applying with some flags what was kept for those same flags meets the
/// same error, and changes the engine in the same way, as applying the whole
/// snapshot with those flags.
pub proof fn lemma_selection_symmetry(
    s: ResourceData,
    t: ResourceData,
    sel: Selection,
    before: Pyxel,
    after: Pyxel,
)
    requires
        t.keeps(s, sel),
    ensures
        t.decode_error(sel) == s.decode_error(sel),
        t.applied(sel, before, after) == s.applied(sel, before, after),
{
    if sel.include_colors {
        assert(t.decoded_colors() =~= s.decoded_colors());
    }
}

/// Keeping the images alone and applying them alone replaces the image pool
/// with the snapshot's images, where it holds any, and leaves every other
/// pool as it was.
pub proof fn lemma_images_only(s: ResourceData, t: ResourceData, before: Pyxel, after: Pyxel)
    requires
        t.keeps(s, images_only()),
        t.applied(images_only(), before, after),
    ensures
        t.decode_error(images_only()) is None <==> s.images_ok(),
        after.colors@ == before.colors@,
        after.tilemaps@ == before.tilemaps@,
        after.channels@ == before.channels@,
        after.sounds@ == before.sounds@,
        after.musics@ == before.musics@,
        after.waveforms@ == before.waveforms@,
        s.images@.len() == 0 ==> after.images@ == before.images@,
        s.images@.len() > 0 ==> after.images@.len() == s.images@.len() && forall|i: int|
            0 <= i < s.images@.len() ==> (#[trigger] s.images@[i]).restores(after.images@[i]),
{
}

/// With no flag set, applying replaces the images, tilemaps, sounds and
/// musics that the snapshot holds and keeps the colors, channels and
/// waveforms of the engine.
pub proof fn lemma_default_apply(s: ResourceData, before: Pyxel, after: Pyxel)
    requires
        s.applied(default_selection(), before, after),
    ensures
        after.colors@ == before.colors@,
        after.channels@ == before.channels@,
        after.waveforms@ == before.waveforms@,
        s.images@.len() > 0 ==> after.images@.len() == s.images@.len() && forall|i: int|
            0 <= i < s.images@.len() ==> (#[trigger] s.images@[i]).restores(after.images@[i]),
        s.tilemaps@.len() > 0 ==> after.tilemaps@.len() == s.tilemaps@.len() && forall|i: int|
            0 <= i < s.tilemaps@.len() ==> (#[trigger] s.tilemaps@[i]).restores(after.tilemaps@[i]),
        s.sounds@.len() > 0 ==> after.sounds@.len() == s.sounds@.len() && forall|i: int|
            0 <= i < s.sounds@.len() ==> (#[trigger] s.sounds@[i]).restores(after.sounds@[i]),
        s.musics@.len() > 0 ==> after.musics@.len() == s.musics@.len() && forall|i: int|
            0 <= i < s.musics@.len() ==> (#[trigger] s.musics@[i]).restores(after.musics@[i]),
{
}

/// With no flag set, what is written out keeps the images, tilemaps, sounds
/// and musics and empties the colors, channels and waveforms.
pub proof fn lemma_default_render(s: ResourceData, t: ResourceData)
    requires
        t.keeps(s, default_selection()),
    ensures
        t.format_version == s.format_version,
        t.images@ == s.images@,
        t.tilemaps@ == s.tilemaps@,
        t.sounds@ == s.sounds@,
        t.musics@ == s.musics@,
        t.colors@.len() == 0,
        t.channels@.len() == 0,
        t.waveforms@.len() == 0,
{
}

/// The selection of every category.
pub open spec fn all_selected() -> Selection {
    selection(false, false, false, false, true, true, true)
}

/// Applying, with every category selected, what was captured from an engine
/// meets no error and gives back each pool that held anything: the same
/// colors, channels, sounds, musics and waveforms, images of the same size
/// and pixels, and tilemaps of the same size and tiles whose tile source is
/// the index that was kept.
pub proof fn lemma_capture_apply(p: Pyxel, d: ResourceData, before: Pyxel, after: Pyxel)
    requires
        p.wf(),
        d.captures(p),
    ensures
        d.decode_error(all_selected()) is None,
        d.applied(all_selected(), before, after) && p.colors@.len() > 0 ==> after.colors@
            == p.colors@,
        d.applied(all_selected(), before, after) && p.images@.len() > 0 ==> {
            &&& after.images@.len() == p.images@.len()
            &&& forall|i: int|
                0 <= i < p.images@.len() ==> {
                    &&& (#[trigger] after.images@[i]).width == p.images@[i].width
                    &&& after.images@[i].height == p.images@[i].height
                    &&& after.images@[i].data@ == p.images@[i].data@
                }
        },
        d.applied(all_selected(), before, after) && p.tilemaps@.len() > 0 ==> {
            &&& after.tilemaps@.len() == p.tilemaps@.len()
            &&& forall|i: int|
                0 <= i < p.tilemaps@.len() ==> {
                    &&& (#[trigger] after.tilemaps@[i]).width == p.tilemaps@[i].width
                    &&& after.tilemaps@[i].height == p.tilemaps@[i].height
                    &&& after.tilemaps@[i].data@ == p.tilemaps@[i].data@
                    &&& after.tilemaps@[i].imgsrc == ImageSource::Index(
                        image_index(p.tilemaps@[i].imgsrc),
                    )
                }
        },
        d.applied(all_selected(), before, after) && p.channels@.len() > 0 ==> after.channels@
            == p.channels@,
        d.applied(all_selected(), before, after) && p.sounds@.len() > 0 ==> {
            &&& after.sounds@.len() == p.sounds@.len()
            &&& forall|i: int|
                0 <= i < p.sounds@.len() ==> {
                    &&& (#[trigger] after.sounds@[i]).notes@ == p.sounds@[i].notes@
                    &&& after.sounds@[i].tones@ == p.sounds@[i].tones@
                    &&& after.sounds@[i].volumes@ == p.sounds@[i].volumes@
                    &&& after.sounds@[i].effects@ == p.sounds@[i].effects@
                    &&& after.sounds@[i].speed == p.sounds@[i].speed
                }
        },
        d.applied(all_selected(), before, after) && p.musics@.len() > 0 ==> {
            &&& after.musics@.len() == p.musics@.len()
            &&& forall|i: int|
                0 <= i < p.musics@.len() ==> cells((#[trigger] after.musics@[i]).seqs@) == cells(
                    p.musics@[i].seqs@,
                )
        },
        d.applied(all_selected(), before, after) && p.waveforms@.len() > 0 ==> after.waveforms@
            == p.waveforms@,
{
    assert forall|i: int| 0 <= i < d.colors@.len() implies parse_hex((#[trigger] d.colors@[i])@)
        == Some(p.colors@[i]) by {
        lemma_color_round_trip(p.colors@[i]);
    }
    assert forall|i: int| 0 <= i < d.images@.len() implies (#[trigger] d.images@[i]).restorable() by {
        lemma_image_round_trip(p.images@[i], d.images@[i], p.images@[i]);
    }
    assert forall|i: int| 0 <= i < d.tilemaps@.len() implies (#[trigger] d.tilemaps@[i]).restorable() by {
        lemma_tilemap_round_trip(p.tilemaps@[i], d.tilemaps@[i], p.tilemaps@[i]);
    }
    assert forall|i: int| 0 <= i < d.waveforms@.len() implies (#[trigger] d.waveforms@[i]).restorable() by {
        lemma_noise_index(p.waveforms@[i].noise, 0);
    }
    if d.applied(all_selected(), before, after) {
        if p.colors@.len() > 0 {
            assert(after.colors@ =~= p.colors@);
        }
        if p.images@.len() > 0 {
            assert forall|i: int| 0 <= i < p.images@.len() implies {
                &&& (#[trigger] after.images@[i]).width == p.images@[i].width
                &&& after.images@[i].height == p.images@[i].height
                &&& after.images@[i].data@ == p.images@[i].data@
            } by {
                assert(d.images@[i].restores(after.images@[i]));
                lemma_image_round_trip(p.images@[i], d.images@[i], after.images@[i]);
            }
        }
        if p.tilemaps@.len() > 0 {
            assert forall|i: int| 0 <= i < p.tilemaps@.len() implies {
                &&& (#[trigger] after.tilemaps@[i]).width == p.tilemaps@[i].width
                &&& after.tilemaps@[i].height == p.tilemaps@[i].height
                &&& after.tilemaps@[i].data@ == p.tilemaps@[i].data@
                &&& after.tilemaps@[i].imgsrc == ImageSource::Index(image_index(p.tilemaps@[i].imgsrc))
            } by {
                assert(d.tilemaps@[i].restores(after.tilemaps@[i]));
                lemma_tilemap_round_trip(p.tilemaps@[i], d.tilemaps@[i], after.tilemaps@[i]);
            }
        }
        if p.channels@.len() > 0 {
            assert forall|i: int| 0 <= i < p.channels@.len() implies #[trigger] after.channels@[i]
                == p.channels@[i] by {
                assert(d.channels@[i].restores(after.channels@[i]));
            }
            assert(after.channels@ =~= p.channels@);
        }
        if p.sounds@.len() > 0 {
            assert forall|i: int| 0 <= i < p.sounds@.len() implies ({
                &&& (#[trigger] after.sounds@[i]).notes@ == p.sounds@[i].notes@
                &&& after.sounds@[i].tones@ == p.sounds@[i].tones@
                &&& after.sounds@[i].volumes@ == p.sounds@[i].volumes@
                &&& after.sounds@[i].effects@ == p.sounds@[i].effects@
                &&& after.sounds@[i].speed == p.sounds@[i].speed
            }) by {
                assert(d.sounds@[i].restores(after.sounds@[i]));
            }
        }
        if p.musics@.len() > 0 {
            assert forall|i: int| 0 <= i < p.musics@.len() implies cells(
                (#[trigger] after.musics@[i]).seqs@,
            ) == cells(p.musics@[i].seqs@) by {
                assert(d.musics@[i].restores(after.musics@[i]));
            }
        }
        if p.waveforms@.len() > 0 {
            assert forall|i: int| 0 <= i < p.waveforms@.len() implies #[trigger] after.waveforms@[i]
                == p.waveforms@[i] by {
                assert(d.waveforms@[i].restores(after.waveforms@[i]));
                lemma_noise_index(p.waveforms@[i].noise, 0);
            }
            assert(after.waveforms@ =~= p.waveforms@);
        }
    }
}

} // verus!
