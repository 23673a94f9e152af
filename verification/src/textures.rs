//! Block texture array: the block textures of a resource pack, read out of its zip archive,
//! decoded to RGBA, fitted to 16 by 16 pixels and stacked layer after layer; a magenta and
//! black checkerboard stands in for a texture that is missing or does not decode.
use vstd::prelude::*;
use vstd::string::StringExecFns;
use vstd::arithmetic::div_mod::lemma_fundamental_div_mod_converse;
use std::io::Cursor;
use std::io::Read;
use zip::ZipArchive;
use image::imageops::FilterType;
use image::RgbaImage;

verus! {

/// Side of every texture layer, in pixels.
pub const TEXTURE_SIZE: u32 = 16;

/// Number of layers in the texture array.
pub const TEXTURE_COUNT: usize = 5;

/// Folder of the block textures in current resource packs.
pub const BLOCK_TEXTURE_DIR: &'static str = "assets/minecraft/textures/block/";

/// Folder of the block textures in older resource packs.
pub const LEGACY_BLOCK_TEXTURE_DIR: &'static str = "assets/minecraft/textures/blocks/";

#[verifier::external_type_specification]
#[verifier::external_body]
#[verifier::reject_recursive_types(R)]
pub struct ExZipArchive<R>(ZipArchive<R>);

#[verifier::external_type_specification]
#[verifier::external_body]
#[verifier::reject_recursive_types(T)]
pub struct ExCursor<T>(Cursor<T>);

/// The files of a zip archive read from the given bytes, by path: for each file that the
/// archive opens by that name, its bytes when it reads out in full, or `None` when reading it
/// fails; `None` as a whole when the bytes do not open as an archive.
pub uninterp spec fn zip_archive_files(bytes: Seq<u8>) -> Option<Map<Seq<char>, Option<Seq<u8>>>>;

/// The files of an opened archive, by path: the bytes of each file that reads out in full, or
/// `None` for one whose reading fails.
pub uninterp spec fn archive_files(archive: ZipArchive<Cursor<Vec<u8>>>) -> Map<Seq<char>, Option<Seq<u8>>>;

/// Width, height and RGBA pixels, row by row, of the image encoded in the given bytes;
/// `None` when they do not decode.
pub uninterp spec fn decoded_rgba8(bytes: Seq<u8>) -> Option<(u32, u32, Seq<u8>)>;

/// RGBA pixels of an image scaled to a new size with nearest-neighbour sampling.
pub uninterp spec fn resized_nearest(
    width: u32,
    height: u32,
    pixels: Seq<u8>,
    new_width: u32,
    new_height: u32,
) -> Seq<u8>;

/// Opens an in-memory zip archive with `zip::ZipArchive::new` over a `std::io::Cursor`.
/// Claimed: it opens exactly when the bytes hold an archive, and the opened archive holds the
/// files those bytes describe.
#[verifier::external_body]
fn open_archive(bytes: Vec<u8>) -> (r: Option<ZipArchive<Cursor<Vec<u8>>>>)
    ensures
        r.is_some() == zip_archive_files(bytes@).is_some(),
        r matches Some(a) ==> archive_files(a) == zip_archive_files(bytes@).unwrap(),
{
    ZipArchive::new(Cursor::new(bytes)).ok()
}

/// Reads one file of an archive with `zip::ZipArchive::by_name` and `std::io::Read::read_to_end`,
/// appending what it reads to `buf`. Claimed: a file that the archive does not open appends
/// nothing and gives `false`; a file that reads out in full appends all its bytes and gives
/// `true`; a file whose reading fails gives `false` and leaves what `buf` held in front of
/// whatever was read before the error (how much that is depends on how the reads were split,
/// so nothing more is said of it); the files of the archive stay as they were.
#[verifier::external_body]
fn read_archive_file(archive: &mut ZipArchive<Cursor<Vec<u8>>>, path: &str, buf: &mut Vec<u8>) -> (r: bool)
    ensures
        archive_files(*final(archive)) == archive_files(*old(archive)),
        r == (archive_files(*old(archive)).contains_key(path@)
            && archive_files(*old(archive))[path@] is Some),
        !archive_files(*old(archive)).contains_key(path@) ==> final(buf)@ == old(buf)@,
        archive_files(*old(archive)).contains_key(path@) ==> match archive_files(*old(archive))[path@] {
            Some(bytes) => final(buf)@ == old(buf)@ + bytes,
            None => final(buf)@.len() >= old(buf)@.len()
                && final(buf)@.subrange(0, old(buf)@.len() as int) == old(buf)@,
        },
{
    match archive.by_name(path) {
        Ok(mut file) => file.read_to_end(buf).is_ok(),
        Err(_) => false,
    }
}

/// Joins three pieces of text.
fn join3(a: &str, b: &str, c: &str) -> (r: String)
    ensures
        r@ == a@ + b@ + c@,
{
    let mut r = String::from_str(a);
    r.append(b);
    r.append(c);
    r
}

/// Decodes an image with `image::load_from_memory` and turns it into 8-bit RGBA with
/// `DynamicImage::into_rgba8`. Claimed: the result is the named decoding of the bytes, and its
/// pixel buffer holds exactly four bytes per pixel (the decoder allocates the image's size).
#[verifier::external_body]
fn decode_rgba8(bytes: &Vec<u8>) -> (r: Option<(u32, u32, Vec<u8>)>)
    ensures
        r.is_some() == decoded_rgba8(bytes@).is_some(),
        r matches Some(img) ==> decoded_rgba8(bytes@) == Some((img.0, img.1, img.2@)),
        r matches Some(img) ==> img.2@.len() == img.0 * img.1 * 4,
{
    match image::load_from_memory(bytes) {
        Ok(decoded) => {
            let rgba = decoded.into_rgba8();
            let (w, h) = rgba.dimensions();
            Some((w, h, rgba.into_raw()))
        },
        Err(_) => None,
    }
}

/// Scales an RGBA image with `image::imageops::resize` and `FilterType::Nearest`.
/// Claimed: the named scaling of the pixels, with four bytes for each pixel of the new size.
#[verifier::external_body]
fn resize_nearest(width: u32, height: u32, pixels: Vec<u8>, new_width: u32, new_height: u32) -> (r:
    Vec<u8>)
    requires
        pixels@.len() == width * height * 4,
        new_width * new_height * 4 <= isize::MAX,
    ensures
        r@ == resized_nearest(width, height, pixels@, new_width, new_height),
        r@.len() == new_width * new_height * 4,
{
    let img: RgbaImage = RgbaImage::from_raw(width, height, pixels).unwrap();
    image::imageops::resize(&img, new_width, new_height, FilterType::Nearest).into_raw()
}

/// Byte `i` of the checkerboard that stands in for a missing texture of the given side:
/// quadrants of half the side alternate between opaque magenta and opaque black.
pub open spec fn fallback_byte(size: int, i: int) -> u8 {
    let p = i / 4;
    let x = p % size;
    let y = p / size;
    let half = size / 2;
    let magenta = ((x / half) as u64 + (y / half) as u64) % 2 == 0;
    let c = i % 4;
    if c == 3 {
        255
    } else if c == 1 {
        0
    } else if magenta {
        255
    } else {
        0
    }
}

/// The checkerboard texture of the given side, RGBA row by row.
pub open spec fn fallback_texture(size: int) -> Seq<u8> {
    Seq::new((size * size * 4) as nat, |i: int| fallback_byte(size, i))
}

proof fn lemma_pixel_byte(size: int, y: int, x: int, c: int)
    requires
        size > 0,
        0 <= y < size,
        0 <= x < size,
        0 <= c < 4,
    ensures
        ((y * size + x) * 4 + c) / 4 == y * size + x,
        ((y * size + x) * 4 + c) % 4 == c,
        (y * size + x) % size == x,
        (y * size + x) / size == y,
        0 <= (y * size + x) * 4 + c < size * size * 4,
{
    lemma_fundamental_div_mod_converse((y * size + x) * 4 + c, 4, y * size + x, c);
    lemma_fundamental_div_mod_converse(y * size + x, size, y, x);
    assert(0 <= (y * size + x) * 4 + c < size * size * 4) by (nonlinear_arith)
        requires
            size > 0,
            0 <= y < size,
            0 <= x < size,
            0 <= c < 4,
    ;
}

/// Builds the checkerboard texture that stands in for one that is missing or broken.
pub fn create_fallback_texture(size: u32) -> (r: Vec<u8>)
    requires
        size != 1,
        size * size * 4 <= usize::MAX,
    ensures
        r@ == fallback_texture(size as int),
{
    let mut data: Vec<u8> = Vec::new();
    if size == 0 {
        assert(data@ =~= fallback_texture(0));
        return data;
    }
    let half = size / 2;
    let ghost s = size as int;
    let mut y: u32 = 0;
    while y < size
        invariant
            s == size,
            size >= 2,
            half == size / 2,
            size * size * 4 <= usize::MAX,
            y <= size,
            data@.len() == y * s * 4,
            forall|i: int| 0 <= i < data@.len() ==> data@[i] == fallback_byte(s, i),
        decreases size - y,
    {
        let mut x: u32 = 0;
        while x < size
            invariant
                s == size,
                size >= 2,
                half == size / 2,
                size * size * 4 <= usize::MAX,
                y < size,
                x <= size,
                data@.len() == (y * s + x) * 4,
                forall|i: int| 0 <= i < data@.len() ==> data@[i] == fallback_byte(s, i),
            decreases size - x,
        {
            let magenta = ((x / half) as u64 + (y / half) as u64) % 2 == 0;
            let v: u8 = if magenta { 255 } else { 0 };
            proof {
                lemma_pixel_byte(s, y as int, x as int, 0);
                lemma_pixel_byte(s, y as int, x as int, 1);
                lemma_pixel_byte(s, y as int, x as int, 2);
                lemma_pixel_byte(s, y as int, x as int, 3);
            }
            let ghost base = (y * s + x) * 4;
            data.push(v);
            data.push(0);
            data.push(v);
            data.push(255);
            proof {
                assert(fallback_byte(s, base) == v);
                assert(fallback_byte(s, base + 1) == 0);
                assert(fallback_byte(s, base + 2) == v);
                assert(fallback_byte(s, base + 3) == 255);
                assert((y * s + x) * 4 + 4 == (y * s + (x + 1)) * 4) by (nonlinear_arith);
            }
            x = x + 1;
        }
        proof {
            assert((y * s + s) * 4 == (y + 1) * s * 4) by (nonlinear_arith);
        }
        y = y + 1;
    }
    assert(data@ =~= fallback_texture(s));
    data
}


/// Name of the texture in each layer of the array.
pub open spec fn texture_name(layer: int) -> Seq<char> {
    if layer == 0 {
        "stone"@
    } else if layer == 1 {
        "dirt"@
    } else if layer == 2 {
        "grass_block_top"@
    } else if layer == 3 {
        "grass_block_side"@
    } else {
        "water_still"@
    }
}

/// The texture name of a layer: stone, dirt, grass top, grass side and still water.
pub fn texture_layer_name(layer: usize) -> (r: &'static str)
    requires
        layer < TEXTURE_COUNT,
    ensures
        r@ == texture_name(layer as int),
{
    if layer == 0 {
        "stone"
    } else if layer == 1 {
        "dirt"
    } else if layer == 2 {
        "grass_block_top"
    } else if layer == 3 {
        "grass_block_side"
    } else {
        "water_still"
    }
}

/// Path of a texture in the current layout of a resource pack.
pub open spec fn block_texture_path(name: Seq<char>) -> Seq<char> {
    BLOCK_TEXTURE_DIR@ + name + ".png"@
}

/// Path of a texture in the older layout of a resource pack.
pub open spec fn legacy_texture_path(name: Seq<char>) -> Seq<char> {
    LEGACY_BLOCK_TEXTURE_DIR@ + name + ".png"@
}

/// The bytes of the texture file found for a name: those of the file under the current path when
/// it reads out in full; otherwise those of the file under the older path, when that one reads
/// out in full, behind `leftover` (what a failed read of a file under the current path yielded,
/// nothing when there is no such file); `None` when neither reads out.
pub open spec fn texture_file(
    files: Map<Seq<char>, Option<Seq<u8>>>,
    name: Seq<char>,
    leftover: Seq<u8>,
) -> Option<Seq<u8>> {
    let p1 = block_texture_path(name);
    let p2 = legacy_texture_path(name);
    let first = if files.contains_key(p1) {
        leftover
    } else {
        Seq::empty()
    };
    if files.contains_key(p1) && files[p1] is Some {
        files[p1]
    } else if files.contains_key(p2) && files[p2] is Some {
        Some(first + files[p2].unwrap())
    } else {
        None
    }
}

/// A decoded image as plain values.
pub open spec fn decoded_view(d: Option<(u32, u32, Vec<u8>)>) -> Option<(u32, u32, Seq<u8>)> {
    match d {
        Some(img) => Some((img.0, img.1, img.2@)),
        None => None,
    }
}

/// The layer made of a decoded image: the checkerboard when there is none, the image itself
/// when it is already 16 by 16, else the image scaled to 16 by 16.
pub open spec fn fitted_layer(d: Option<(u32, u32, Seq<u8>)>) -> Seq<u8> {
    match d {
        None => fallback_texture(16),
        Some(img) => if img.0 == 16 && img.1 == 16 {
            img.2
        } else {
            resized_nearest(img.0, img.1, img.2, 16, 16)
        },
    }
}

/// The decoding of a texture file, when there is one.
pub open spec fn decoded_file(file: Option<Seq<u8>>) -> Option<(u32, u32, Seq<u8>)> {
    match file {
        Some(bytes) => decoded_rgba8(bytes),
        None => None,
    }
}

/// Layers `0..n` of the texture array built from the files of a resource pack, one after the
/// other; `leftovers[i]` is what a failed read of layer `i`'s file under the current path yielded.
pub open spec fn texture_layers(
    files: Map<Seq<char>, Option<Seq<u8>>>,
    leftovers: Seq<Seq<u8>>,
    n: nat,
) -> Seq<u8>
    decreases n,
{
    if n == 0 {
        Seq::empty()
    } else {
        texture_layers(files, leftovers, (n - 1) as nat) + fitted_layer(
            decoded_file(texture_file(files, texture_name(n - 1), leftovers[n - 1])),
        )
    }
}

/// Every file that the archive opens reads out in full, so that no read leaves anything over.
pub open spec fn readable_files(files: Map<Seq<char>, Option<Seq<u8>>>) -> bool {
    forall|p: Seq<char>| #[trigger] files.contains_key(p) ==> files[p] is Some
}

/// Turns a decoded image into a layer of the array: the checkerboard when there is none,
/// else the image, scaled to 16 by 16 pixels when it has another size.
pub fn fit_texture(decoded: Option<(u32, u32, Vec<u8>)>) -> (r: Vec<u8>)
    requires
        decoded matches Some(img) ==> img.2@.len() == img.0 * img.1 * 4,
    ensures
        r@ == fitted_layer(decoded_view(decoded)),
        r@.len() == 1024,
{
    match decoded {
        None => create_fallback_texture(TEXTURE_SIZE),
        Some(img) => {
            let (w, h, px) = img;
            if w == TEXTURE_SIZE && h == TEXTURE_SIZE {
                px
            } else {
                resize_nearest(w, h, px, TEXTURE_SIZE, TEXTURE_SIZE)
            }
        },
    }
}

/// Decodes an encoded texture file, if there is one, into a layer of the array.
pub fn texture_layer(file: Option<Vec<u8>>) -> (r: Vec<u8>)
    ensures
        r@ == fitted_layer(
            decoded_file(
                match file {
                    Some(bytes) => Some(bytes@),
                    None => None,
                },
            ),
        ),
        r@.len() == 1024,
{
    match file {
        Some(bytes) => {
            let decoded = decode_rgba8(&bytes);
            fit_texture(decoded)
        },
        None => fit_texture(None),
    }
}

/// Reads the file of one texture out of a resource pack, trying the current path first and
/// the older one second; what a failed first read yielded stays in front of the second read.
fn find_texture_file(archive: &mut ZipArchive<Cursor<Vec<u8>>>, name: &str) -> (r: Option<Vec<u8>>)
    ensures
        archive_files(*final(archive)) == archive_files(*old(archive)),
        exists|leftover: Seq<u8>|
            #[trigger] texture_file(archive_files(*old(archive)), name@, leftover) == match r {
                Some(bytes) => Some(bytes@),
                None => None::<Seq<u8>>,
            },
{
    let ghost files = archive_files(*archive);
    let mut bytes: Vec<u8> = Vec::new();
    let path = join3(BLOCK_TEXTURE_DIR, name, ".png");
    assert(path@ == block_texture_path(name@));
    if read_archive_file(archive, path.as_str(), &mut bytes) {
        assert(texture_file(files, name@, Seq::empty()) == Some(bytes@));
        return Some(bytes);
    }
    let ghost leftover = bytes@;
    let legacy = join3(LEGACY_BLOCK_TEXTURE_DIR, name, ".png");
    assert(legacy@ == legacy_texture_path(name@));
    if read_archive_file(archive, legacy.as_str(), &mut bytes) {
        assert(texture_file(files, name@, leftover) == Some(bytes@));
        Some(bytes)
    } else {
        assert(texture_file(files, name@, leftover) == None::<Seq<u8>>);
        None
    }
}

/// The pixels of the block texture array in a resource pack: every layer in turn, 16 by 16
/// RGBA pixels each, or `None` when the bytes are not a zip archive. What a failed read of a file
/// under the current path yielded is not fixed; where every file reads out in full, nothing is
/// left over and the layers are fixed by the files alone.
pub fn texture_array_data(zip_bytes: Vec<u8>) -> (r: Option<Vec<u8>>)
    ensures
        r.is_some() == zip_archive_files(zip_bytes@).is_some(),
        r matches Some(data) ==> exists|leftovers: Seq<Seq<u8>>|
            leftovers.len() == TEXTURE_COUNT && data@ == #[trigger] texture_layers(
                zip_archive_files(zip_bytes@).unwrap(),
                leftovers,
                TEXTURE_COUNT as nat,
            ),
        r matches Some(data) ==> readable_files(zip_archive_files(zip_bytes@).unwrap())
            ==> forall|leftovers: Seq<Seq<u8>>| leftovers.len() == TEXTURE_COUNT ==>
                data@ == #[trigger] texture_layers(
                    zip_archive_files(zip_bytes@).unwrap(),
                    leftovers,
                    TEXTURE_COUNT as nat,
                ),
        r matches Some(data) ==> data@.len() == TEXTURE_COUNT * 1024,
{
    let ghost bytes = zip_bytes@;
    let opened = open_archive(zip_bytes);
    match opened {
        None => None,
        Some(archive) => {
            let mut archive = archive;
            let ghost files = archive_files(archive);
            let ghost mut leftovers: Seq<Seq<u8>> = Seq::empty();
            let mut data: Vec<u8> = Vec::new();
            let mut layer: usize = 0;
            while layer < TEXTURE_COUNT
                invariant
                    layer <= TEXTURE_COUNT,
                    files == zip_archive_files(bytes).unwrap(),
                    archive_files(archive) == files,
                    leftovers.len() == layer,
                    data@ == texture_layers(files, leftovers, layer as nat),
                    readable_files(files) ==> forall|ls: Seq<Seq<u8>>| ls.len() >= layer
                        ==> data@ == #[trigger] texture_layers(files, ls, layer as nat),
                    data@.len() == layer * 1024,
                decreases TEXTURE_COUNT - layer,
            {
                let name = texture_layer_name(layer);
                let file = find_texture_file(&mut archive, name);
                let ghost l = choose|l: Seq<u8>|
                    #[trigger] texture_file(files, name@, l) == match file {
                        Some(b) => Some(b@),
                        None => None::<Seq<u8>>,
                    };
                let ghost old_data = data@;
                let ghost old_leftovers = leftovers;
                let mut pixels = texture_layer(file);
                data.append(&mut pixels);
                proof {
                    leftovers = leftovers.push(l);
                    lemma_layers_prefix(files, old_leftovers, leftovers, layer as nat);
                    assert(data@ == texture_layers(files, leftovers, (layer + 1) as nat));
                    if readable_files(files) {
                        assert forall|ls: Seq<Seq<u8>>| ls.len() >= layer + 1
                            implies data@ == #[trigger] texture_layers(files, ls, (layer + 1) as nat) by {
                            lemma_readable_no_leftover(files, texture_name(layer as int), l, ls[layer as int]);
                            assert(old_data == texture_layers(files, ls, layer as nat));
                        }
                    }
                }
                layer = layer + 1;
            }
            Some(data)
        },
    }
}

/// Layers below `n` do not depend on the leftovers at or past `n`.
proof fn lemma_layers_prefix(
    files: Map<Seq<char>, Option<Seq<u8>>>,
    a: Seq<Seq<u8>>,
    b: Seq<Seq<u8>>,
    n: nat,
)
    requires
        a.len() >= n,
        b.len() >= n,
        forall|i: int| 0 <= i < n ==> a[i] == b[i],
    ensures
        texture_layers(files, a, n) == texture_layers(files, b, n),
    decreases n,
{
    if n > 0 {
        lemma_layers_prefix(files, a, b, (n - 1) as nat);
    }
}

/// Where every file reads out in full, the leftover changes nothing.
proof fn lemma_readable_no_leftover(
    files: Map<Seq<char>, Option<Seq<u8>>>,
    name: Seq<char>,
    a: Seq<u8>,
    b: Seq<u8>,
)
    requires
        readable_files(files),
    ensures
        texture_file(files, name, a) == texture_file(files, name, b),
{
    let p1 = block_texture_path(name);
    if files.contains_key(p1) {
        assert(files[p1] is Some);
    }
}

} // verus!
