use escom::icon::{encode_ico, escom_icon_rgba, ICON_SIZE};
use escom::logging::{archive_path, log_line, rotation_plan, LogOp, RollingLog, LOG_FILE};
use escom::theme::{minimum_samples, neighboring_buckets, sample_step, DynamicTheme, ThemeAction};
use escom::window_chrome::{
    resize_cursor, window_resize_direction, ResizeCursor, ResizeDirection,
};

fn pixel(pixels: &[u8], x: usize, y: usize) -> [u8; 4] {
    let at = (y * 64 + x) * 4;
    [pixels[at], pixels[at + 1], pixels[at + 2], pixels[at + 3]]
}

#[test]
fn generated_ico_has_expected_header_and_size() {
    let icon = encode_ico(&escom_icon_rgba());
    assert_eq!(&icon[..6], &[0, 0, 1, 0, 1, 0]);
    assert!(icon.len() > (ICON_SIZE * ICON_SIZE * 4) as usize);
}

#[test]
fn icon_file_is_exact() {
    let rgba = escom_icon_rgba();
    let icon = encode_ico(&rgba);
    let bitmap: u32 = 40 + 64 * 64 * 4 + 8 * 64;
    assert_eq!(icon.len(), 22 + bitmap as usize);
    assert_eq!(&icon[6..14], &[64, 64, 0, 0, 1, 0, 32, 0]);
    assert_eq!(&icon[14..18], &bitmap.to_le_bytes());
    assert_eq!(&icon[18..22], &22_u32.to_le_bytes());
    assert_eq!(&icon[22..26], &40_u32.to_le_bytes());
    assert_eq!(&icon[26..30], &64_i32.to_le_bytes());
    assert_eq!(&icon[30..34], &128_i32.to_le_bytes());
    assert_eq!(&icon[34..38], &[1, 0, 32, 0]);
    assert_eq!(&icon[38..42], &0_u32.to_le_bytes());
    assert_eq!(&icon[42..46], &16_384_u32.to_le_bytes());
    assert!(icon[46..62].iter().all(|byte| *byte == 0));
    let first = pixel(&rgba, 20, 63);
    let at = 62 + 20 * 4;
    assert_eq!(&icon[at..at + 4], &[first[2], first[1], first[0], first[3]]);
    assert!(icon[62 + 16_384..].iter().all(|byte| *byte == 0));
}

#[test]
fn icon_has_its_colors() {
    let pixels = escom_icon_rgba();
    assert_eq!(pixels.len(), 16_384);
    assert_eq!(pixel(&pixels, 0, 0), [0, 0, 0, 0]);
    assert_eq!(pixel(&pixels, 63, 63), [0, 0, 0, 0]);
    assert_eq!(pixel(&pixels, 32, 2), [31, 41, 51, 255]);
    assert_eq!(pixel(&pixels, 11, 21), [242, 246, 248, 255]);
    assert_eq!(pixel(&pixels, 30, 30), [21, 184, 166, 255]);
    assert_eq!(pixel(&pixels, 15, 30), [31, 41, 51, 255]);
    assert_eq!(pixel(&pixels, 16, 25), [75, 198, 225, 255]);
    assert_eq!(pixel(&pixels, 47, 38), [75, 198, 225, 255]);
}

struct MemoryLog {
    files: Vec<Option<Vec<u8>>>,
    log: RollingLog,
}

impl MemoryLog {
    fn write_record(&mut self, bytes: &[u8]) {
        if self.log.rotates_before(bytes.len() as u64) {
            let exists = self.files.iter().map(|file| file.is_some()).collect();
            for op in rotation_plan(self.files.len() - 1, &exists) {
                match op {
                    LogOp::Remove(index) => self.files[index] = None,
                    LogOp::MoveUp(index) => self.files[index + 1] = self.files[index].take(),
                }
            }
            self.log.rotated();
        }
        self.files[0]
            .get_or_insert_with(Vec::new)
            .extend_from_slice(bytes);
        self.log.record_written(bytes.len() as u64);
    }
}

#[test]
fn writer_rotates_and_keeps_the_configured_archive_count() {
    let mut writer = MemoryLog {
        files: vec![None; 3],
        log: RollingLog::new(0, 16),
    };
    for record in [
        b"first record\n".as_slice(),
        b"second record\n".as_slice(),
        b"third record\n".as_slice(),
    ] {
        writer.write_record(record);
    }
    assert_eq!(writer.files[0].as_deref(), Some(&b"third record\n"[..]));
    assert_eq!(writer.files[1].as_deref(), Some(&b"second record\n"[..]));
    assert_eq!(writer.files[2].as_deref(), Some(&b"first record\n"[..]));
    writer.write_record(b"fourth record\n");
    assert_eq!(writer.files.len(), 3);
    assert_eq!(writer.files[2].as_deref(), Some(&b"second record\n"[..]));
}

#[test]
fn rotation_without_archives_removes_the_log() {
    assert_eq!(rotation_plan(0, &vec![true]), [LogOp::Remove(0)]);
    assert_eq!(
        rotation_plan(2, &vec![true, true, false]),
        [
            LogOp::Remove(2),
            LogOp::Remove(2),
            LogOp::MoveUp(1),
            LogOp::MoveUp(0)
        ]
    );
    assert_eq!(archive_path(LOG_FILE, 12), "escom.log.12");
    let log = RollingLog::new(0, 4);
    assert!(!log.rotates_before(100));
    let log = RollingLog::new(4, 4);
    assert!(log.rotates_before(1));
    assert!(!log.rotates_before(0));
}

#[test]
fn resize_hit_zones_map_to_every_edge_and_corner() {
    let direction = |x: f64, y: f64| {
        window_resize_direction(x <= 5.0, x >= 1275.0, y <= 5.0, y >= 815.0)
    };
    assert_eq!(direction(1.0, 1.0), Some(ResizeDirection::NorthWest));
    assert_eq!(direction(1279.0, 1.0), Some(ResizeDirection::NorthEast));
    assert_eq!(direction(1.0, 819.0), Some(ResizeDirection::SouthWest));
    assert_eq!(direction(1279.0, 819.0), Some(ResizeDirection::SouthEast));
    assert_eq!(direction(1.0, 400.0), Some(ResizeDirection::West));
    assert_eq!(direction(1279.0, 400.0), Some(ResizeDirection::East));
    assert_eq!(direction(640.0, 1.0), Some(ResizeDirection::North));
    assert_eq!(direction(640.0, 819.0), Some(ResizeDirection::South));
    assert_eq!(direction(640.0, 400.0), None);
    assert_eq!(
        window_resize_direction(true, true, true, true),
        Some(ResizeDirection::NorthWest)
    );
    assert_eq!(resize_cursor(ResizeDirection::South), ResizeCursor::Vertical);
    assert_eq!(resize_cursor(ResizeDirection::NorthEast), ResizeCursor::NeSw);
    assert_eq!(resize_cursor(ResizeDirection::NorthWest), ResizeCursor::NwSe);
    assert_eq!(resize_cursor(ResizeDirection::East), ResizeCursor::Horizontal);
}

#[test]
fn pictures_are_analyzed_once() {
    let mut theme = DynamicTheme::new();
    assert!(theme.needs_analysis("a"));
    assert_eq!(theme.set_accent("a", None), ThemeAction::Keep);
    assert!(!theme.needs_analysis("a"));
    assert!(theme.needs_analysis("b"));
    let color = escom::highlight::Color {
        red: 1,
        green: 2,
        blue: 3,
        alpha: 255,
    };
    let accent = escom::theme::DynamicAccent {
        source: color,
        light: color,
        dark: color,
    };
    assert_eq!(theme.set_accent("b", Some(accent)), ThemeAction::Apply(accent));
    assert_eq!(theme.accent(), Some(accent));
    assert_eq!(theme.set_accent("c", None), ThemeAction::Restore);
    assert_eq!(theme.clear(), (ThemeAction::Keep, true));
    assert_eq!(theme.clear(), (ThemeAction::Keep, false));
}

#[test]
fn samples_are_bounded() {
    assert_eq!(sample_step(0), 1);
    assert_eq!(sample_step(64), 1);
    assert_eq!(sample_step(65), 2);
    assert_eq!(sample_step(1920), 30);
    assert_eq!(minimum_samples(15), 1);
    assert_eq!(minimum_samples(16), 2);
    assert_eq!(minimum_samples(4096), 16);
    assert_eq!(neighboring_buckets(0), (23, 1));
    assert_eq!(neighboring_buckets(23), (22, 0));
}

#[test]
fn log_lines_tell_what_happened() {
    let at = escom::timestamp::Timestamp::new(1_785_499_200, 7_000_000, 0).unwrap();
    assert_eq!(
        log_line(at, "WARN", "main", "escom::app", "hot"),
        "2026-07-31 12:00:00.007 WARN  [main] escom::app - hot\n"
    );
    assert_eq!(
        log_line(at, "ERROR", "", "t", ""),
        "2026-07-31 12:00:00.007 ERROR [] t - \n"
    );
}
