use pyxel_resource::resource::{
    ChannelData, ImageData, MusicData, ResourceError, SoundData, TilemapData, WaveformData,
};
use pyxel_resource::runtime::{
    Channel, Image, ImageSource, Music, Noise, Pyxel, Sound, Tilemap, Waveform, WAVEFORM_SIZE,
};
use pyxel_resource::snapshot::{ResourceData, RESOURCE_FORMAT_VERSION};

fn image(width: u32, height: u32, data: Vec<u8>) -> Image {
    Image { width, height, data }
}

fn sample_pyxel() -> Pyxel {
    let mut table = [0u8; WAVEFORM_SIZE];
    for (i, a) in table.iter_mut().enumerate() {
        *a = (i % 16) as u8;
    }
    Pyxel {
        colors: vec![0x000000, 0x1A2B3C, 0xFFFFFF],
        images: vec![image(3, 2, vec![1, 2, 2, 4, 4, 4])],
        tilemaps: vec![Tilemap {
            width: 2,
            height: 2,
            imgsrc: ImageSource::Index(1),
            data: vec![(0, 1), (2, 3), (4, 5), (6, 7)],
        }],
        channels: vec![Channel { gain: 0.5f64.to_bits(), detune: -7 }],
        sounds: vec![Sound {
            notes: vec![12, -1, 24],
            tones: vec![0, 3],
            volumes: vec![7],
            effects: vec![1, 2, 3, 4],
            speed: 30,
        }],
        musics: vec![Music { seqs: vec![vec![0, 1], vec![], vec![2]] }],
        waveforms: vec![Waveform { gain: 0.25f64.to_bits(), noise: Noise::LongPeriod, table }],
    }
}

fn other_pyxel() -> Pyxel {
    Pyxel {
        colors: vec![0x123456],
        images: vec![image(1, 1, vec![9])],
        tilemaps: vec![Tilemap { width: 1, height: 1, imgsrc: ImageSource::Index(0), data: vec![(9, 9)] }],
        channels: vec![Channel { gain: 1.0f64.to_bits(), detune: 0 }],
        sounds: vec![Sound { notes: vec![], tones: vec![], volumes: vec![], effects: vec![], speed: 1 }],
        musics: vec![Music { seqs: vec![vec![5]] }],
        waveforms: vec![Waveform { gain: 0, noise: Noise::Off, table: [0u8; WAVEFORM_SIZE] }],
    }
}

fn same_image(a: &Image, b: &Image) -> bool {
    a.width == b.width && a.height == b.height && a.data == b.data
}

fn same_tilemap(a: &Tilemap, b: &Tilemap) -> bool {
    let src = match (&a.imgsrc, &b.imgsrc) {
        (ImageSource::Index(x), ImageSource::Index(y)) => x == y,
        _ => false,
    };
    src && a.width == b.width && a.height == b.height && a.data == b.data
}

#[test]
fn image_round_trip() {
    let img = image(4, 3, vec![0, 1, 1, 1, 2, 2, 2, 2, 2, 2, 2, 2]);
    let d = ImageData::from_image(&img);
    assert_eq!(d.data, vec![vec![0, 1], vec![2]]);
    let back = d.to_image().unwrap();
    assert!(same_image(&img, &back));
}

#[test]
fn image_round_trip_zero_width() {
    let img = image(0, 3, Vec::new());
    let d = ImageData::from_image(&img);
    assert!(d.data.is_empty());
    let back = d.to_image().unwrap();
    assert!(same_image(&img, &back));
}

#[test]
fn image_with_bad_rows_fails() {
    let d = ImageData { width: 2, height: 2, data: vec![vec![1, 2, 3]] };
    assert_eq!(d.to_image().err(), Some(ResourceError::InvalidGrid));
}

#[test]
fn tilemap_round_trip_keeps_each_pair() {
    let t = Tilemap {
        width: 2,
        height: 2,
        imgsrc: ImageSource::Index(2),
        data: vec![(1, 2), (3, 4), (5, 6), (7, 8)],
    };
    let d = TilemapData::from_tilemap(&t);
    assert_eq!(d.data, vec![vec![1, 2, 3, 4], vec![5, 6, 7, 8]]);
    assert_eq!(d.imgsrc, 2);
    let back = d.to_tilemap().unwrap();
    assert!(same_tilemap(&t, &back));
}

#[test]
fn tilemap_with_own_image_keeps_index_zero() {
    let t = Tilemap {
        width: 1,
        height: 1,
        imgsrc: ImageSource::Image(image(1, 1, vec![3])),
        data: vec![(4, 4)],
    };
    let d = TilemapData::from_tilemap(&t);
    assert_eq!(d.imgsrc, 0);
    assert_eq!(d.data, vec![vec![4]]);
    let back = d.to_tilemap().unwrap();
    assert!(matches!(back.imgsrc, ImageSource::Index(0)));
    assert_eq!(back.data, vec![(4, 4)]);
}

#[test]
fn waveform_round_trip_and_bad_noise() {
    let w = Waveform { gain: 7, noise: Noise::ShortPeriod, table: [3u8; WAVEFORM_SIZE] };
    let d = WaveformData::from_waveform(&w);
    assert_eq!(d.noise, 1);
    let back = d.to_waveform().unwrap();
    assert_eq!(back.noise, Noise::ShortPeriod);
    assert_eq!(back.gain, 7);
    assert_eq!(back.table, [3u8; WAVEFORM_SIZE]);
    let bad = WaveformData { gain: 0, noise: 3, table: [0u8; WAVEFORM_SIZE] };
    assert_eq!(bad.to_waveform().err(), Some(ResourceError::InvalidNoise));
}

#[test]
fn channel_sound_music_round_trip() {
    let c = Channel { gain: 42, detune: -3 };
    let back = ChannelData::from_channel(&c).to_channel();
    assert_eq!((back.gain, back.detune), (42, -3));
    let s = Sound { notes: vec![1, 2], tones: vec![3], volumes: vec![], effects: vec![5, 5], speed: 9 };
    let back = SoundData::from_sound(&s).to_sound();
    assert_eq!(back.notes, s.notes);
    assert_eq!(back.tones, s.tones);
    assert_eq!(back.volumes, s.volumes);
    assert_eq!(back.effects, s.effects);
    assert_eq!(back.speed, 9);
    let m = Music { seqs: vec![vec![1, 2, 3], vec![], vec![4]] };
    let back = MusicData::from_music(&m).to_music();
    assert_eq!(back.seqs, m.seqs);
}

#[test]
fn capture_stamps_version_and_writes_colors() {
    let p = sample_pyxel();
    let d = ResourceData::from_runtime(&p);
    assert_eq!(d.format_version, RESOURCE_FORMAT_VERSION);
    assert_eq!(d.colors, vec!["000000".to_string(), "1A2B3C".to_string(), "FFFFFF".to_string()]);
    assert_eq!(d.images.len(), 1);
    assert_eq!(d.tilemaps.len(), 1);
    assert_eq!(d.channels.len(), 1);
    assert_eq!(d.sounds.len(), 1);
    assert_eq!(d.musics.len(), 1);
    assert_eq!(d.waveforms.len(), 1);
}

#[test]
fn apply_with_no_flags_replaces_primary_content_only() {
    let d = ResourceData::from_runtime(&sample_pyxel());
    let mut p = other_pyxel();
    assert_eq!(d.to_runtime(&mut p, false, false, false, false, false, false, false), Ok(()));
    let src = sample_pyxel();
    assert!(same_image(&p.images[0], &src.images[0]));
    assert!(same_tilemap(&p.tilemaps[0], &src.tilemaps[0]));
    assert_eq!(p.sounds[0].notes, src.sounds[0].notes);
    assert_eq!(p.musics[0].seqs, src.musics[0].seqs);
    assert_eq!(p.colors, vec![0x123456]);
    assert_eq!(p.channels[0].gain, 1.0f64.to_bits());
    assert_eq!(p.waveforms[0].noise, Noise::Off);
}

#[test]
fn apply_with_all_flags_replaces_everything() {
    let d = ResourceData::from_runtime(&sample_pyxel());
    let mut p = other_pyxel();
    assert_eq!(d.to_runtime(&mut p, false, false, false, false, true, true, true), Ok(()));
    assert_eq!(p.colors, vec![0x000000, 0x1A2B3C, 0xFFFFFF]);
    assert_eq!((p.channels[0].gain, p.channels[0].detune), (0.5f64.to_bits(), -7));
    assert_eq!(p.waveforms[0].noise, Noise::LongPeriod);
    assert_eq!(p.waveforms[0].table, sample_pyxel().waveforms[0].table);
}

#[test]
fn apply_skips_empty_lists() {
    let mut d = ResourceData::from_runtime(&sample_pyxel());
    d.images.clear();
    d.colors.clear();
    let mut p = other_pyxel();
    assert_eq!(d.to_runtime(&mut p, false, false, false, false, true, false, false), Ok(()));
    assert!(same_image(&p.images[0], &other_pyxel().images[0]));
    assert_eq!(p.colors, vec![0x123456]);
}

#[test]
fn images_only_selection_is_symmetric() {
    let d = ResourceData::from_runtime(&sample_pyxel());
    let kept = d.clone().select(false, true, true, true, false, false, false);
    assert_eq!(kept.images.len(), 1);
    assert!(kept.tilemaps.is_empty() && kept.sounds.is_empty() && kept.musics.is_empty());
    assert!(kept.colors.is_empty() && kept.channels.is_empty() && kept.waveforms.is_empty());
    let mut p = other_pyxel();
    assert_eq!(kept.to_runtime(&mut p, false, true, true, true, false, false, false), Ok(()));
    let o = other_pyxel();
    assert!(same_image(&p.images[0], &sample_pyxel().images[0]));
    assert!(same_tilemap(&p.tilemaps[0], &o.tilemaps[0]));
    assert_eq!(p.colors, o.colors);
    assert_eq!(p.sounds[0].speed, o.sounds[0].speed);
    assert_eq!(p.musics[0].seqs, o.musics[0].seqs);
    assert_eq!(p.channels[0].gain, o.channels[0].gain);
    assert_eq!(p.waveforms[0].noise, o.waveforms[0].noise);
}

#[test]
fn default_render_clears_settings_only() {
    let d = ResourceData::from_runtime(&sample_pyxel());
    let kept = d.select(false, false, false, false, false, false, false);
    assert!(kept.colors.is_empty() && kept.channels.is_empty() && kept.waveforms.is_empty());
    assert_eq!(kept.images.len(), 1);
    assert_eq!(kept.tilemaps.len(), 1);
    assert_eq!(kept.sounds.len(), 1);
    assert_eq!(kept.musics.len(), 1);
    assert_eq!(kept.format_version, RESOURCE_FORMAT_VERSION);
}

#[test]
fn bad_color_fails_and_changes_nothing() {
    let mut d = ResourceData::from_runtime(&sample_pyxel());
    d.colors[1] = "ZZZZZZ".to_string();
    let mut p = other_pyxel();
    assert_eq!(
        d.to_runtime(&mut p, false, false, false, false, true, false, false),
        Err(ResourceError::InvalidColor)
    );
    assert_eq!(p.colors, vec![0x123456]);
    assert!(same_image(&p.images[0], &other_pyxel().images[0]));
    assert_eq!(d.to_runtime(&mut p, false, false, false, false, false, false, false), Ok(()));
}

#[test]
fn bad_grid_and_bad_noise_fail() {
    let mut d = ResourceData::from_runtime(&sample_pyxel());
    d.tilemaps[0].data = vec![vec![1, 2, 3, 4, 5]];
    let mut p = other_pyxel();
    assert_eq!(
        d.to_runtime(&mut p, false, false, false, false, false, false, false),
        Err(ResourceError::InvalidGrid)
    );
    assert_eq!(d.to_runtime(&mut p, false, true, false, false, false, false, false), Ok(()));
    let mut d = ResourceData::from_runtime(&sample_pyxel());
    d.waveforms[0].noise = 7;
    let mut p = other_pyxel();
    assert_eq!(
        d.to_runtime(&mut p, false, false, false, false, false, false, true),
        Err(ResourceError::InvalidNoise)
    );
    assert_eq!(p.sounds[0].speed, 1);
}
