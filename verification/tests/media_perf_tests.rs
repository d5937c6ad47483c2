use vcp_mobile::media::{
    convert_image_bytes, check_inline_video_size, flatten_rgba_over_white, image_conversion_error,
    jpeg_data_url, needs_resize, processed_audio_from_wav, video_data_url, video_mime_for_path,
    MAX_INLINE_VIDEO_BYTES,
};
use vcp_mobile::performance::{
    parse_status_kb, parse_status_u32, process_cpu_ticks_from_stat, process_ticks_fit,
    report_filename, status_kb_fits, total_cpu_ticks_from_stat, total_ticks_fit,
};
use vcp_mobile::stream_service::StreamServiceGuard;

#[test]
fn base64_matches_the_standard_vectors() {
    assert_eq!(processed_audio_from_wav(b"").data, "");
    assert_eq!(processed_audio_from_wav(b"f").data, "Zg==");
    assert_eq!(processed_audio_from_wav(b"fo").data, "Zm8=");
    assert_eq!(processed_audio_from_wav(b"foo").data, "Zm9v");
    assert_eq!(processed_audio_from_wav(b"foobar").data, "Zm9vYmFy");
    assert_eq!(processed_audio_from_wav(&[0xfb, 0xff]).data, "+/8=");
}

#[test]
fn media_payloads() {
    let a = processed_audio_from_wav(b"RIFF");
    assert_eq!(a.data, "UklGRg==");
    assert_eq!(a.format, "wav");
    assert_eq!(jpeg_data_url(b"ab"), "data:image/jpeg;base64,YWI=");
    assert_eq!(video_data_url("video/mp4", b"abc"), "data:video/mp4;base64,YWJj");
    assert_eq!(
        image_conversion_error("x", "y"),
        "Rust image conversion failed: x; ffmpeg fallback failed: y"
    );
    assert!(needs_resize(1121, 10));
    assert!(!needs_resize(1120, 1120));
}

#[test]
fn transparent_pixels_become_white() {
    let rgba = [10, 20, 30, 255, 0, 0, 0, 0, 100, 100, 100, 128];
    let rgb = flatten_rgba_over_white(&rgba);
    assert_eq!(rgb, vec![10, 20, 30, 255, 255, 255, 177, 177, 177]);
}

#[test]
fn video_type_and_size_limit() {
    assert_eq!(video_mime_for_path("/a/b.bin", "video/webm"), "video/webm");
    assert_eq!(video_mime_for_path("/a/b.mp4", ""), "video/mp4");
    assert_eq!(video_mime_for_path("/a/b.unknownext", ""), "video/mp4");
    assert!(check_inline_video_size(MAX_INLINE_VIDEO_BYTES).is_ok());
    assert_eq!(
        check_inline_video_size(MAX_INLINE_VIDEO_BYTES + 1).err().unwrap(),
        "Video is too large for inline VCP multimodal payload: 230686721 bytes > 230686720 bytes"
    );
}

#[test]
fn status_values_are_read_per_line() {
    let status = "Name:\tapp\nVmSize:\t  2048 kB\nVmRSS:\tbad kB\nVmRSS:\t12 kB\r\nThreads:\t7\n";
    assert_eq!(parse_status_kb(status, "VmSize:"), Some(2048 * 1024));
    assert_eq!(parse_status_kb(status, "VmRSS:"), Some(12 * 1024));
    assert_eq!(parse_status_u32(status, "Threads:"), Some(7));
    assert_eq!(parse_status_u32(status, "Missing:"), None);
    assert_eq!(parse_status_u32("Threads: 99999999999\n", "Threads:"), None);
}

#[test]
fn cpu_ticks_are_summed() {
    let stat = "1234 (my (odd) app) S 1 2 3 4 5 6 7 8 9 10 11 12 13 14 15";
    // fields after ") ": S 1 2 3 4 5 6 7 8 9 10 11 12 ...; index 11 is "11", index 12 is "12"
    assert_eq!(process_cpu_ticks_from_stat(stat), Some(11 + 12));
    assert_eq!(process_cpu_ticks_from_stat("no name end"), None);
    let total = "cpu  10 20 x 30\ncpu0 1 2\n";
    assert_eq!(total_cpu_ticks_from_stat(total), Some(60));
    assert_eq!(total_cpu_ticks_from_stat("intr 1\n"), None);
}

#[test]
fn report_file_name() {
    assert_eq!(
        report_filename("20260102-030405"),
        "vcp-mobile-performance-20260102-030405.json"
    );
}

#[test]
fn stream_guard_stops_only_after_a_successful_stop() {
    let mut g = StreamServiceGuard::start("agent".to_string(), "X", &Ok(()));
    assert!(g.needs_stop());
    g.stop_finished(&Err("busy".to_string()));
    assert!(g.needs_stop());
    g.stop_finished(&Ok(()));
    assert!(!g.needs_stop());
    let g = StreamServiceGuard::start("agent".to_string(), "X", &Err("no".to_string()));
    assert!(!g.needs_stop());
}

#[test]
fn range_checks_flag_sums_that_overflow() {
    assert!(status_kb_fits("VmRSS:\t  2048 kB\n", "VmRSS:"));
    assert!(!status_kb_fits("VmRSS: 18446744073709551615 kB\n", "VmRSS:"));
    assert!(status_kb_fits("Threads: 4\n", "VmRSS:"));
    let fields = "S 1 1 1 0 -1 4194560 1 0 0 0";
    let ok = format!("1 (app) {fields} 5 7 0 0");
    assert!(process_ticks_fit(&ok));
    assert_eq!(process_cpu_ticks_from_stat(&ok), Some(12));
    let big = format!("1 (app) {fields} 18446744073709551615 1 0 0");
    assert!(!process_ticks_fit(&big));
    assert!(total_ticks_fit("cpu  1 2 3\ncpu0 1 2 3\n"));
    assert!(!total_ticks_fit("cpu  18446744073709551615 1\n"));
    assert!(total_ticks_fit("intr 1\n"));
}

fn png_bytes(width: u32, height: u32, pixel: [u8; 4]) -> Vec<u8> {
    let img = image::RgbaImage::from_pixel(width, height, image::Rgba(pixel));
    let mut out = std::io::Cursor::new(Vec::new());
    img.write_to(&mut out, image::ImageFormat::Png).unwrap();
    out.into_inner()
}

#[test]
fn images_are_sent_as_jpeg_over_white() {
    let jpeg = convert_image_bytes(&png_bytes(4, 3, [10, 20, 30, 0]), "image.png").unwrap();
    assert_eq!(&jpeg[..2], &[0xff, 0xd8]);
    let back = image::load_from_memory(&jpeg).unwrap().to_rgb8();
    assert_eq!(back.dimensions(), (4, 3));
    for p in back.pixels() {
        assert!(p.0.iter().all(|c| *c >= 250));
    }
}

#[test]
fn large_images_are_scaled_to_fit() {
    let jpeg = convert_image_bytes(&png_bytes(2240, 20, [200, 100, 50, 255]), "image.png").unwrap();
    let back = image::load_from_memory(&jpeg).unwrap();
    assert_eq!((back.width(), back.height()), (1120, 10));
}

#[test]
fn undecodable_bytes_are_refused() {
    let err = convert_image_bytes(b"not an image", "image.png").unwrap_err();
    assert!(err.starts_with("Failed to decode image: "));
}

fn tga_bytes(width: u32, height: u32, pixel: [u8; 4]) -> Vec<u8> {
    let img = image::RgbaImage::from_pixel(width, height, image::Rgba(pixel));
    let mut out = std::io::Cursor::new(Vec::new());
    img.write_to(&mut out, image::ImageFormat::Tga).unwrap();
    out.into_inner()
}

#[test]
fn the_file_extension_names_a_format_the_bytes_do_not_show() {
    let tga = tga_bytes(3, 2, [0, 0, 255, 255]);
    let jpeg = convert_image_bytes(&tga, "picture.tga").unwrap();
    let back = image::load_from_memory(&jpeg).unwrap();
    assert_eq!((back.width(), back.height()), (3, 2));
    assert!(convert_image_bytes(&tga, "picture").is_err());
}

#[test]
fn sixteen_bit_images_are_scaled_before_conversion() {
    let img = image::ImageBuffer::<image::Rgb<u16>, Vec<u16>>::from_pixel(2400, 12, image::Rgb([65535, 0, 0]));
    let mut out = std::io::Cursor::new(Vec::new());
    image::DynamicImage::ImageRgb16(img).write_to(&mut out, image::ImageFormat::Png).unwrap();
    let jpeg = convert_image_bytes(&out.into_inner(), "deep.png").unwrap();
    let back = image::load_from_memory(&jpeg).unwrap();
    assert_eq!((back.width(), back.height()), (1120, 6));
}
