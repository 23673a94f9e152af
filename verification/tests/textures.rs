use cavegame::textures::{create_fallback_texture, fit_texture, texture_array_data, texture_layer, texture_layer_name};
use std::io::{Cursor, Write};

fn png_bytes(width: u32, height: u32, pixel: impl Fn(u32, u32) -> [u8; 4]) -> Vec<u8> {
    let img = image::RgbaImage::from_fn(width, height, |x, y| image::Rgba(pixel(x, y)));
    let mut out = Vec::new();
    img.write_to(&mut Cursor::new(&mut out), image::ImageFormat::Png).unwrap();
    out
}

fn zip_bytes(files: &[(&str, Vec<u8>)]) -> Vec<u8> {
    let mut writer = zip::ZipWriter::new(Cursor::new(Vec::new()));
    let options = zip::write::SimpleFileOptions::default()
        .compression_method(zip::CompressionMethod::Stored);
    for (name, data) in files {
        writer.start_file(*name, options).unwrap();
        writer.write_all(data).unwrap();
    }
    writer.finish().unwrap().into_inner()
}

fn pixel_at(layer: &[u8], x: usize, y: usize) -> [u8; 4] {
    let i = (y * 16 + x) * 4;
    [layer[i], layer[i + 1], layer[i + 2], layer[i + 3]]
}

#[test]
fn fallback_is_a_magenta_black_checkerboard() {
    let t = create_fallback_texture(16);
    assert_eq!(t.len(), 1024);
    assert_eq!(pixel_at(&t, 0, 0), [255, 0, 255, 255]);
    assert_eq!(pixel_at(&t, 7, 7), [255, 0, 255, 255]);
    assert_eq!(pixel_at(&t, 8, 0), [0, 0, 0, 255]);
    assert_eq!(pixel_at(&t, 0, 8), [0, 0, 0, 255]);
    assert_eq!(pixel_at(&t, 15, 15), [255, 0, 255, 255]);
    assert!(create_fallback_texture(0).is_empty());
}

#[test]
fn layer_names_in_array_order() {
    assert_eq!(texture_layer_name(0), "stone");
    assert_eq!(texture_layer_name(1), "dirt");
    assert_eq!(texture_layer_name(2), "grass_block_top");
    assert_eq!(texture_layer_name(3), "grass_block_side");
    assert_eq!(texture_layer_name(4), "water_still");
}

#[test]
fn missing_or_broken_file_gives_fallback() {
    assert_eq!(texture_layer(None), create_fallback_texture(16));
    assert_eq!(texture_layer(Some(vec![1, 2, 3])), create_fallback_texture(16));
    assert_eq!(fit_texture(None), create_fallback_texture(16));
}

#[test]
fn small_texture_is_scaled_to_sixteen() {
    let png = png_bytes(2, 2, |_, _| [10, 20, 30, 255]);
    let layer = texture_layer(Some(png));
    assert_eq!(layer.len(), 1024);
    for y in 0..16 {
        for x in 0..16 {
            assert_eq!(pixel_at(&layer, x, y), [10, 20, 30, 255]);
        }
    }
}

#[test]
fn sixteen_pixel_texture_is_kept() {
    let png = png_bytes(16, 16, |x, y| [x as u8, y as u8, 7, 255]);
    let layer = texture_layer(Some(png));
    assert_eq!(layer.len(), 1024);
    assert_eq!(pixel_at(&layer, 3, 9), [3, 9, 7, 255]);
    assert_eq!(pixel_at(&layer, 15, 0), [15, 0, 7, 255]);
}

#[test]
fn non_zip_bytes_give_no_array() {
    assert!(texture_array_data(vec![0u8; 64]).is_none());
}

#[test]
fn texture_array_reads_both_layouts_and_falls_back() {
    let stone = png_bytes(2, 2, |_, _| [10, 20, 30, 255]);
    let dirt = png_bytes(16, 16, |x, y| [x as u8, y as u8, 99, 255]);
    let zip = zip_bytes(&[
        ("assets/minecraft/textures/block/stone.png", stone),
        ("assets/minecraft/textures/blocks/dirt.png", dirt),
        ("assets/minecraft/textures/block/water_still.png", vec![9, 9, 9]),
    ]);
    let data = texture_array_data(zip).unwrap();
    assert_eq!(data.len(), 5 * 1024);
    let layer = |i: usize| &data[i * 1024..(i + 1) * 1024];
    assert_eq!(pixel_at(layer(0), 5, 5), [10, 20, 30, 255]);
    assert_eq!(pixel_at(layer(1), 4, 6), [4, 6, 99, 255]);
    assert_eq!(layer(2), &create_fallback_texture(16)[..]);
    assert_eq!(layer(3), &create_fallback_texture(16)[..]);
    assert_eq!(layer(4), &create_fallback_texture(16)[..]);
}
