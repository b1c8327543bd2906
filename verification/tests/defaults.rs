use scriba_rs::ScribaConfig;
use scriba_rs::tray::tray_icon_rgba;

#[test]
fn default_configuration() {
    let c = ScribaConfig::default();
    assert_eq!(c.accent_color, (232, 89, 12));
    assert_eq!(c.dark_mode, None);
    assert_eq!(c.default_language, "auto");
    assert_eq!(c.model, "lite");
    assert!(!c.diarize);
    assert_eq!(c.app_name, "Scriba");
    assert!(c.data_dir.is_none());
    assert!(c.always_on_top);
    assert!(c.ui_language.is_none());
    let d = c.clone();
    assert_eq!(d.model, c.model);
    let mut e = ScribaConfig::default();
    e.data_dir = Some(std::path::PathBuf::from("/srv/scriba"));
    assert_eq!(e.clone().data_dir, e.data_dir);
    assert_eq!(d.accent_color, c.accent_color);
}

/// The icon as drawn with floating-point distances.
fn float_icon(r: u8, g: u8, b: u8) -> Vec<u8> {
    let size = 32u32;
    let mut rgba = vec![0u8; (size * size * 4) as usize];
    let center = size as f32 / 2.0;
    let radius = center - 2.0;
    for y in 0..size {
        for x in 0..size {
            let dx = x as f32 - center + 0.5;
            let dy = y as f32 - center + 0.5;
            let dist = (dx * dx + dy * dy).sqrt();
            if dist <= radius {
                let idx = ((y * size + x) * 4) as usize;
                rgba[idx] = r;
                rgba[idx + 1] = g;
                rgba[idx + 2] = b;
                rgba[idx + 3] = 255;
            }
        }
    }
    rgba
}

#[test]
fn tray_icon_is_a_disc() {
    let icon = tray_icon_rgba(232, 89, 12);
    assert_eq!(icon.len(), 4096);
    assert_eq!(icon, float_icon(232, 89, 12));
    let centre = (16 * 32 + 16) * 4;
    assert_eq!(&icon[centre..centre + 4], &[232, 89, 12, 255]);
    assert_eq!(&icon[0..4], &[0, 0, 0, 0]);
    assert_eq!(tray_icon_rgba(1, 2, 3), float_icon(1, 2, 3));
}
