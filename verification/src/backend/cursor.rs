//! Pointer images: reading them, choosing the one that fits size and time, and keeping those
//! that were uploaded.

use vstd::prelude::*;

use crate::utils::lists::lemma_filter_members;
use crate::utils::search;
use crate::utils::text;

verus! {

/// One image of a pointer: the nominal size, the size in pixels, the place of the tip, how
/// long it is shown, and its pixels.
pub struct Image {
    pub size: u32,
    pub width: u32,
    pub height: u32,
    pub xhot: u32,
    pub yhot: u32,
    pub delay: u32,
    pub pixels_rgba: Vec<u8>,
    pub pixels_argb: Vec<u8>,
}

/// One image of a pointer.
#[verifier::ext_equal]
pub ghost struct ImageView {
    pub size: u32,
    pub width: u32,
    pub height: u32,
    pub xhot: u32,
    pub yhot: u32,
    pub delay: u32,
    pub pixels_rgba: Seq<u8>,
    pub pixels_argb: Seq<u8>,
}

impl View for Image {
    type V = ImageView;

    open spec fn view(&self) -> ImageView {
        ImageView {
            size: self.size,
            width: self.width,
            height: self.height,
            xhot: self.xhot,
            yhot: self.yhot,
            delay: self.delay,
            pixels_rgba: self.pixels_rgba@,
            pixels_argb: self.pixels_argb@,
        }
    }
}

/// The images, as mathematical values.
pub open spec fn image_views(images: Seq<Image>) -> Seq<ImageView> {
    Seq::new(images.len(), |i: int| images[i]@)
}

/// The images, where there are some.
pub open spec fn optional_views(images: Option<Vec<Image>>) -> Option<Seq<ImageView>> {
    match images {
        Some(list) => Some(image_views(list@)),
        None => None,
    }
}

/// What `xcursor` reads in a cursor file.
pub uninterp spec fn xcursor_images(content: Seq<u8>) -> Option<Seq<ImageView>>;

/// `xcursor::parser::parse_xcursor`: the images of a cursor file, or nothing where the file is
/// malformed. Nothing is claimed of which images a file holds, only that the same bytes always
/// give the same images.
#[verifier::external_body]
fn parse_xcursor(content: &Vec<u8>) -> (r: Option<Vec<Image>>)
    ensures
        optional_views(r) == xcursor_images(content@),
{
    let images = xcursor::parser::parse_xcursor(content)?;
    Some(images.into_iter().map(|i| Image {
        size: i.size,
        width: i.width,
        height: i.height,
        xhot: i.xhot,
        yhot: i.yhot,
        delay: i.delay,
        pixels_rgba: i.pixels_rgba,
        pixels_argb: i.pixels_argb,
    }).collect())
}

fn copy_bytes(bytes: &Vec<u8>) -> (r: Vec<u8>)
    ensures
        r@ == bytes@,
{
    let r = bytes.clone();
    assert(r@ =~= bytes@);
    r
}

fn same_bytes(a: &Vec<u8>, b: &Vec<u8>) -> (r: bool)
    ensures
        r == (a@ == b@),
{
    if a.len() != b.len() {
        return false;
    }
    let mut i: usize = 0;
    while i < a.len()
        invariant
            a@.len() == b@.len(),
            i <= a@.len(),
            forall|j: int| 0 <= j < i ==> a@[j] == b@[j],
        decreases a@.len() - i,
    {
        if a[i] != b[i] {
            return false;
        }
        i = i + 1;
    }
    assert(a@ =~= b@);
    true
}

impl Image {
    /// A copy of the image.
    pub fn duplicate(&self) -> (r: Image)
        ensures
            r@ == self@,
    {
        Image {
            size: self.size,
            width: self.width,
            height: self.height,
            xhot: self.xhot,
            yhot: self.yhot,
            delay: self.delay,
            pixels_rgba: copy_bytes(&self.pixels_rgba),
            pixels_argb: copy_bytes(&self.pixels_argb),
        }
    }

    /// Whether two images are the same in everything.
    pub fn same_as(&self, other: &Image) -> (r: bool)
        ensures
            r == (self@ == other@),
    {
        self.size == other.size && self.width == other.width && self.height == other.height
            && self.xhot == other.xhot && self.yhot == other.yhot && self.delay == other.delay
            && same_bytes(&self.pixels_rgba, &other.pixels_rgba) && same_bytes(
            &self.pixels_argb,
            &other.pixels_argb,
        )
    }
}

/// How far a nominal size is from the wanted one.
pub open spec fn distance(size: u32, image: ImageView) -> int {
    if size >= image.size {
        size - image.size
    } else {
        image.size - size
    }
}

/// The place of the image whose nominal size is nearest, among the first `n`; the first one,
/// where several are.
pub open spec fn nearest(size: u32, images: Seq<ImageView>, n: nat) -> int
    decreases n,
{
    if n <= 1 {
        0
    } else {
        let best = nearest(size, images, (n - 1) as nat);
        if distance(size, images[n - 1]) < distance(size, images[best]) {
            n - 1
        } else {
            best
        }
    }
}

proof fn lemma_nearest(size: u32, images: Seq<ImageView>, n: nat)
    requires
        0 < n <= images.len(),
    ensures
        0 <= nearest(size, images, n) < n,
        forall|j: int|
            0 <= j < n ==> distance(size, images[nearest(size, images, n)]) <= distance(
                size,
                #[trigger] images[j],
            ),
        forall|j: int|
            0 <= j < nearest(size, images, n) ==> distance(
                size,
                images[nearest(size, images, n)],
            ) < distance(size, #[trigger] images[j]),
    decreases n,
{
    if n > 1 {
        lemma_nearest(size, images, (n - 1) as nat);
    }
}

/// The nearest image is nearest: none is nearer, and none before it is as near.
pub proof fn law_nearest(size: u32, images: Seq<ImageView>, j: int)
    requires
        0 <= j < images.len(),
    ensures
        ({
            let best = nearest(size, images, images.len());
            &&& 0 <= best < images.len()
            &&& distance(size, images[best]) <= distance(size, images[j])
            &&& j < best ==> distance(size, images[best]) < distance(size, images[j])
        }),
{
    lemma_nearest(size, images, images.len());
}

/// The images of a given size in pixels.
pub open spec fn of_size(width: u32, height: u32) -> spec_fn(ImageView) -> bool {
    |i: ImageView| i.width == width && i.height == height
}

/// The images that make up the animation of the wanted size: those with as many pixels as the
/// nearest one.
pub open spec fn animation(size: u32, images: Seq<ImageView>) -> Seq<ImageView> {
    let best = images[nearest(size, images, images.len())];
    images.filter(of_size(best.width, best.height))
}

/// How long the images are shown in all.
pub open spec fn total_delay(images: Seq<ImageView>) -> int
    decreases images.len(),
{
    if images.len() == 0 {
        0
    } else {
        total_delay(images.drop_last()) + images.last().delay
    }
}

/// Whether the image at a place is shown at a time: the images before it are over by then, and
/// it is not.
pub open spec fn shown_at(images: Seq<ImageView>, millis: int) -> spec_fn(int) -> bool {
    |k: int| millis - total_delay(images.take(k)) <= images[k].delay
}

/// The place of the image that is shown at a time.
pub open spec fn frame_index(images: Seq<ImageView>, millis: int) -> Option<int> {
    search::first_below(images.len(), shown_at(images, millis))
}

/// The time within a round of the animation.
pub open spec fn within(millis: u32, total: int) -> int {
    if total == 0 {
        0
    } else {
        millis as int % total
    }
}

/// The image that is shown at a time: the animation goes round and round.
pub open spec fn frame_of(millis: u32, size: u32, images: Seq<ImageView>) -> ImageView {
    let parts = animation(size, images);
    parts[frame_index(parts, within(millis, total_delay(parts))).unwrap()]
}

/// Whether there is an image, and the animation's length can be counted.
pub open spec fn drawable(size: u32, images: Seq<ImageView>) -> bool {
    images.len() > 0 && total_delay(animation(size, images)) <= u32::MAX
}

proof fn lemma_total_step(images: Seq<ImageView>, k: int)
    requires
        0 <= k < images.len(),
    ensures
        total_delay(images.take(k + 1)) == total_delay(images.take(k)) + images[k].delay,
{
    assert(images.take(k + 1).drop_last() =~= images.take(k));
}

proof fn lemma_total_grows(images: Seq<ImageView>, k: int)
    requires
        0 <= k <= images.len(),
    ensures
        0 <= total_delay(images.take(k)) <= total_delay(images),
    decreases images.len() - k,
{
    lemma_total_positive(images.take(k));
    if k < images.len() {
        lemma_total_step(images, k);
        lemma_total_grows(images, k + 1);
    } else {
        assert(images.take(k) =~= images);
    }
}

proof fn lemma_total_positive(images: Seq<ImageView>)
    ensures
        total_delay(images) >= 0,
    decreases images.len(),
{
    if images.len() > 0 {
        lemma_total_positive(images.drop_last());
    }
}

proof fn lemma_animation(size: u32, images: Seq<ImageView>)
    requires
        images.len() > 0,
    ensures
        animation(size, images).len() > 0,
{
    lemma_nearest(size, images, images.len());
    let best = images[nearest(size, images, images.len())];
    let p = of_size(best.width, best.height);
    broadcast use vstd::seq_lib::group_filter_ensures;

    assert(p(best));
    assert(images.filter(p).contains(images[nearest(size, images, images.len())]));
}

fn nearest_image(size: u32, images: &Vec<Image>) -> (r: usize)
    requires
        images@.len() > 0,
    ensures
        r < images@.len(),
        r == nearest(size, image_views(images@), images@.len()),
{
    let ghost views = image_views(images@);
    let mut best: usize = 0;
    let mut i: usize = 1;
    while i < images.len()
        invariant
            views == image_views(images@),
            1 <= i <= images@.len(),
            best < i,
            best == nearest(size, views, i as nat),
        decreases images@.len() - i,
    {
        proof {
            assert(views[i as int] == images@[i as int]@);
            assert(views[best as int] == images@[best as int]@);
        }
        let here: u32 = if size >= images[i].size {
            size - images[i].size
        } else {
            images[i].size - size
        };
        let so_far: u32 = if size >= images[best].size {
            size - images[best].size
        } else {
            images[best].size - size
        };
        if here < so_far {
            best = i;
        }
        i = i + 1;
    }
    best
}

/// The places of the images that make up the animation of the wanted size.
pub fn nearest_images(size: u32, images: &Vec<Image>) -> (r: Vec<usize>)
    requires
        images@.len() > 0,
    ensures
        r@.len() == animation(size, image_views(images@)).len(),
        forall|k: int|
            0 <= k < r@.len() ==> (#[trigger] r@[k]) < images@.len() && images@[r@[k] as int]@
                == animation(size, image_views(images@))[k],
{
    let best: usize = nearest_image(size, images);
    let width: u32 = images[best].width;
    let height: u32 = images[best].height;
    let ghost views = image_views(images@);
    let ghost p = of_size(width, height);
    let mut places: Vec<usize> = Vec::new();
    let mut i: usize = 0;
    proof {
        assert(views[best as int] == images@[best as int]@);
        reveal(Seq::filter);
        assert(views.take(0).filter(p) =~= Seq::<ImageView>::empty());
    }
    while i < images.len()
        invariant
            views == image_views(images@),
            p == of_size(width, height),
            i <= images@.len(),
            places@.len() == views.take(i as int).filter(p).len(),
            forall|k: int|
                0 <= k < places@.len() ==> (#[trigger] places@[k]) < i
                    && images@[places@[k] as int]@ == views.take(i as int).filter(p)[k],
        decreases images@.len() - i,
    {
        proof {
            reveal(Seq::filter);
            assert(views.take(i + 1).drop_last() =~= views.take(i as int));
            assert(views.take(i + 1).last() == images@[i as int]@);
        }
        if images[i].width == width && images[i].height == height {
            places.push(i);
        }
        i = i + 1;
    }
    proof {
        assert(views.take(i as int) =~= views);
    }
    places
}

/// The image that is shown at a time: one of those that make up the animation of the wanted
/// size.
pub fn frame(millis: u32, size: u32, images: &Vec<Image>) -> (r: Image)
    requires
        drawable(size, image_views(images@)),
    ensures
        r@ == frame_of(millis, size, image_views(images@)),
        animation(size, image_views(images@)).contains(r@),
        ({
            let views = image_views(images@);
            let best = views[nearest(size, views, views.len())];
            r@.width == best.width && r@.height == best.height
        }),
{
    proof {
        law_always_a_frame(millis, size, image_views(images@));
    }
    let places = nearest_images(size, images);
    let ghost parts = animation(size, image_views(images@));
    proof {
        lemma_animation(size, image_views(images@));
        assert(parts.take(0) =~= Seq::<ImageView>::empty());
    }
    let mut total: u32 = 0;
    let mut i: usize = 0;
    while i < places.len()
        invariant
            parts == animation(size, image_views(images@)),
            total_delay(parts) <= u32::MAX,
            i <= places@.len(),
            places@.len() == parts.len(),
            forall|k: int|
                0 <= k < places@.len() ==> (#[trigger] places@[k]) < images@.len()
                    && images@[places@[k] as int]@ == parts[k],
            total == total_delay(parts.take(i as int)),
        decreases places@.len() - i,
    {
        proof {
            lemma_total_step(parts, i as int);
            lemma_total_grows(parts, i + 1);
            assert(images@[places@[i as int] as int]@ == parts[i as int]);
        }
        total = total + images[places[i]].delay;
        i = i + 1;
    }
    proof {
        assert(parts.take(i as int) =~= parts);
    }
    let mut left: u32 = if total == 0 {
        0
    } else {
        millis % total
    };
    let ghost time = within(millis, total_delay(parts));
    let ghost p = shown_at(parts, time);
    proof {
        assert(time == left);
        assert(total > 0 ==> left < total);
    }
    let mut k: usize = 0;
    while k < places.len() - 1
        invariant
            parts == animation(size, image_views(images@)),
            p == shown_at(parts, time),
            time == within(millis, total_delay(parts)),
            total == total_delay(parts),
            0 <= time <= total,
            k < places@.len(),
            places@.len() == parts.len(),
            forall|j: int|
                0 <= j < places@.len() ==> (#[trigger] places@[j]) < images@.len()
                    && images@[places@[j] as int]@ == parts[j],
            left == time - total_delay(parts.take(k as int)),
            forall|j: int| 0 <= j < k ==> !(#[trigger] p(j)),
        decreases places@.len() - k,
    {
        proof {
            assert(images@[places@[k as int] as int]@ == parts[k as int]);
            lemma_total_step(parts, k as int);
        }
        let image = &images[places[k]];
        if left <= image.delay {
            proof {
                assert(p(k as int));
                search::lemma_is_first_below(parts.len(), p, k as int);
            }
            return image.duplicate();
        }
        left = left - image.delay;
        k = k + 1;
    }
    proof {
        let last = parts.len() - 1;
        assert(images@[places@[last] as int]@ == parts[last]);
        lemma_total_step(parts, last);
        assert(parts.take(last + 1) =~= parts);
        assert(p(last));
        search::lemma_is_first_below(parts.len(), p, last);
    }
    images[places[places.len() - 1]].duplicate()
}

/// At every time the animation shows one of its images, which has as many pixels as the nearest
/// one.
pub proof fn law_always_a_frame(millis: u32, size: u32, images: Seq<ImageView>)
    requires
        images.len() > 0,
    ensures
        ({
            let parts = animation(size, images);
            let k = frame_index(parts, within(millis, total_delay(parts)));
            let best = images[nearest(size, images, images.len())];
            &&& k is Some
            &&& 0 <= k.unwrap() < parts.len()
            &&& parts.contains(frame_of(millis, size, images))
            &&& frame_of(millis, size, images).width == best.width
            &&& frame_of(millis, size, images).height == best.height
        }),
{
    broadcast use vstd::seq_lib::group_filter_ensures;

    let parts = animation(size, images);
    lemma_animation(size, images);
    lemma_total_positive(parts);
    let time = within(millis, total_delay(parts));
    let p = shown_at(parts, time);
    let last = parts.len() - 1;
    lemma_total_step(parts, last);
    assert(parts.take(last + 1) =~= parts);
    assert(time <= total_delay(parts)) by {
        if total_delay(parts) > 0 {
            assert(millis as int % total_delay(parts) < total_delay(parts)) by (nonlinear_arith)
                requires
                    total_delay(parts) > 0,
            ;
        }
    }
    assert(p(last));
    search::lemma_first_below(parts.len(), p);
    let k = frame_index(parts, time).unwrap();
    let best = images[nearest(size, images, images.len())];
    assert(parts[k] == frame_of(millis, size, images));
    assert(of_size(best.width, best.height)(parts[k]));
}

/// The animation repeats: a round later it shows the same image.
pub proof fn law_animation_repeats(millis: u32, later: u32, size: u32, images: Seq<ImageView>)
    requires
        images.len() > 0,
        later == millis + total_delay(animation(size, images)),
    ensures
        frame_of(later, size, images) == frame_of(millis, size, images),
{
    let total = total_delay(animation(size, images));
    if total != 0 {
        lemma_total_positive(animation(size, images));
        vstd::arithmetic::div_mod::lemma_mod_add_multiples_vanish(millis as int, total);
    }
}

/// A cursor file, as far as it could be had.
pub enum IconFile {
    /// The theme has no such icon.
    Missing,
    /// The file could not be read.
    Unreadable,
    /// What the file holds.
    Read(Vec<u8>),
}

/// Why an icon could not be loaded.
#[derive(Debug, Clone, Copy, PartialEq, Eq, Structural)]
pub enum CursorError {
    NoDefaultCursor,
    File,
    Parse,
}

/// The images of a cursor file, or why there are none.
pub open spec fn icon_images(file: IconFile) -> Result<Seq<ImageView>, CursorError> {
    match file {
        IconFile::Missing => Err(CursorError::NoDefaultCursor),
        IconFile::Unreadable => Err(CursorError::File),
        IconFile::Read(content) => match xcursor_images(content@) {
            Some(images) => Ok(images),
            None => Err(CursorError::Parse),
        },
    }
}

/// Reads the images of a cursor file.
pub fn load_icon(file: &IconFile) -> (r: Result<Vec<Image>, CursorError>)
    ensures
        match r {
            Ok(images) => icon_images(*file) == Ok::<Seq<ImageView>, CursorError>(
                image_views(images@),
            ),
            Err(error) => icon_images(*file) == Err::<Seq<ImageView>, CursorError>(error),
        },
{
    match file {
        IconFile::Missing => Err(CursorError::NoDefaultCursor),
        IconFile::Unreadable => Err(CursorError::File),
        IconFile::Read(content) => match parse_xcursor(content) {
            Some(images) => Ok(images),
            None => Err(CursorError::Parse),
        },
    }
}

/// The image to fall back on, with the given pixels.
pub open spec fn fallback_image(pixels: Seq<u8>) -> ImageView {
    ImageView {
        size: 32,
        width: 64,
        height: 64,
        xhot: 1,
        yhot: 1,
        delay: 1,
        pixels_rgba: pixels,
        pixels_argb: Seq::empty(),
    }
}

/// The images of a pointer: those of its own file, or else those of the default one, or else
/// the fallback.
pub open spec fn chosen_images(
    own: Option<Seq<ImageView>>,
    default: Option<Seq<ImageView>>,
    fallback: Seq<u8>,
) -> Seq<ImageView> {
    match own {
        Some(images) => images,
        None => match default {
            Some(images) => images,
            None => seq![fallback_image(fallback)],
        },
    }
}

/// A pointer of some shape.
pub struct Cursor {
    icons: Vec<Image>,
    size: u32,
}

/// A pointer of some shape: its images and the size that is wanted.
#[verifier::ext_equal]
pub ghost struct CursorView {
    pub icons: Seq<ImageView>,
    pub size: u32,
}

impl View for Cursor {
    type V = CursorView;

    closed spec fn view(&self) -> CursorView {
        CursorView { icons: image_views(self.icons@), size: self.size }
    }
}

impl CursorView {
    /// Whether an image can be chosen at this scale.
    pub open spec fn drawable_at(self, scale: u32) -> bool {
        self.size * scale <= u32::MAX && drawable((self.size * scale) as u32, self.icons)
    }

    /// The image to show at this scale and time.
    pub open spec fn image(self, scale: u32, millis: u32) -> ImageView {
        frame_of(millis, (self.size * scale) as u32, self.icons)
    }
}

/// The images that were loaded, unless loading failed.
pub open spec fn loaded(file: IconFile) -> Option<Seq<ImageView>> {
    match icon_images(file) {
        Ok(images) => Some(images),
        Err(_) => None,
    }
}

impl Cursor {
    /// A pointer with these images, or else those of the default pointer, or else the
    /// fallback.
    pub fn from_images(
        own: Option<Vec<Image>>,
        default: Option<Vec<Image>>,
        fallback: Vec<u8>,
        size: u32,
    ) -> (r: Cursor)
        ensures
            r@ == (CursorView {
                icons: chosen_images(optional_views(own), optional_views(default), fallback@),
                size,
            }),
    {
        let icons = match own {
            Some(images) => images,
            None => match default {
                Some(images) => images,
                None => {
                    let mut images: Vec<Image> = Vec::new();
                    images.push(
                        Image {
                            size: 32,
                            width: 64,
                            height: 64,
                            xhot: 1,
                            yhot: 1,
                            delay: 1,
                            pixels_rgba: fallback,
                            pixels_argb: Vec::new(),
                        },
                    );
                    assert(image_views(images@) =~= seq![fallback_image(fallback@)]);
                    images
                },
            },
        };
        Cursor { icons, size }
    }

    /// Loads a pointer: from its own file, or else from the default one, or else the fallback.
    pub fn load(shape: &IconFile, default: &IconFile, fallback: Vec<u8>, size: u32) -> (r: Cursor)
        ensures
            r@ == (CursorView {
                icons: chosen_images(loaded(*shape), loaded(*default), fallback@),
                size,
            }),
    {
        let own = match load_icon(shape) {
            Ok(images) => Some(images),
            Err(_) => None,
        };
        let other = match &own {
            Some(_) => None,
            None => match load_icon(default) {
                Ok(images) => Some(images),
                Err(_) => None,
            },
        };
        Cursor::from_images(own, other, fallback, size)
    }

    /// The image to show at this scale and time.
    pub fn get_image(&self, scale: u32, millis: u32) -> (r: Image)
        requires
            self@.drawable_at(scale),
        ensures
            r@ == self@.image(scale, millis),
    {
        let size: u32 = self.size * scale;
        frame(millis, size, &self.icons)
    }

    /// Whether an image can be chosen at this scale: there is one, and the sizes and times can
    /// be counted.
    pub fn can_draw(&self, scale: u32) -> (r: bool)
        ensures
            r == self@.drawable_at(scale),
    {
        if self.icons.len() == 0 {
            return false;
        }
        let size: u32 = match self.size.checked_mul(scale) {
            Some(size) => size,
            None => {
                return false;
            },
        };
        let places = nearest_images(size, &self.icons);
        let ghost parts = animation(size, image_views(self.icons@));
        let mut total: u32 = 0;
        let mut i: usize = 0;
        proof {
            assert(parts.take(0) =~= Seq::<ImageView>::empty());
        }
        while i < places.len()
            invariant
                parts == animation(size, self@.icons),
                size == self@.size * scale,
                self@.icons.len() > 0,
                i <= places@.len(),
                places@.len() == parts.len(),
                forall|k: int|
                    0 <= k < places@.len() ==> (#[trigger] places@[k]) < self.icons@.len()
                        && self.icons@[places@[k] as int]@ == parts[k],
                total == total_delay(parts.take(i as int)),
            decreases places@.len() - i,
        {
            proof {
                lemma_total_step(parts, i as int);
                lemma_total_grows(parts, i + 1);
                assert(self.icons@[places@[i as int] as int]@ == parts[i as int]);
            }
            total = match total.checked_add(self.icons[places[i]].delay) {
                Some(sum) => sum,
                None => {
                    return false;
                },
            };
            i = i + 1;
        }
        proof {
            assert(parts.take(i as int) =~= parts);
        }
        true
    }
}

/// The fallback pointer can be drawn at every scale that its size allows.
pub proof fn law_fallback_drawable(pixels: Seq<u8>, size: u32)
    ensures
        drawable(size, seq![fallback_image(pixels)]),
{
    let images = seq![fallback_image(pixels)];
    let p = of_size(64, 64);
    reveal(Seq::filter);
    assert(images.drop_last() =~= Seq::<ImageView>::empty());
    assert(images.drop_last().filter(p) =~= Seq::<ImageView>::empty());
    assert(images.filter(p) =~= images);
    assert(animation(size, images) =~= images);
    reveal_with_fuel(total_delay, 2);
}

/// Name and size of the pointer theme, by what the environment says.
pub fn load_cursor_env(theme: Option<&str>, size: Option<&str>) -> (r: (String, u32))
    ensures
        r.0@ == (match theme {
            Some(name) => name@,
            None => "default"@,
        }),
        r.1 == (match size {
            Some(digits) => match text::parse_u32_spec(digits@) {
                Some(n) => n,
                None => 24,
            },
            None => 24,
        }),
{
    let name = match theme {
        Some(name) => String::from_str(name),
        None => String::from_str("default"),
    };
    let wanted: u32 = match size {
        Some(digits) => match text::parse_u32(digits) {
            Some(n) => n,
            None => 24,
        },
        None => 24,
    };
    (name, wanted)
}

/// What a client wants the pointer to look like.
#[derive(Debug, Clone, Copy, PartialEq, Eq, Structural)]
pub enum CursorImageStatus {
    Hidden,
    /// A shape, by its number.
    Named(u32),
    /// A surface of the client's.
    Surface,
}

/// What is drawn for the pointer.
#[derive(Debug, Clone, Copy, PartialEq, Eq, Structural)]
pub enum CursorChoice {
    Nothing,
    Named(u32),
    Surface,
}

/// An image of the pointer, ready to be drawn.
#[derive(Debug, Clone, Copy, PartialEq, Eq, Structural)]
pub struct CursorFrame {
    /// The place of the image among those that were uploaded.
    pub image: usize,
    /// Whether it has to be uploaded first.
    pub upload: bool,
    /// The scale that the image was drawn for.
    pub scale: u32,
    /// The place of the tip, at that scale.
    pub hotspot_x: u32,
    pub hotspot_y: u32,
}

/// The pointers that were loaded, and the images that were uploaded.
pub struct CursorStateInner {
    current_cursor: Option<u32>,
    cursor_size: u32,
    cursors: Vec<(u32, Cursor)>,
    current_image: Option<usize>,
    image_cache: Vec<Image>,
}

/// The pointers that were loaded, and the images that were uploaded.
#[verifier::ext_equal]
pub ghost struct CursorStateView {
    pub current: Option<u32>,
    pub size: u32,
    pub cursors: Seq<(u32, CursorView)>,
    pub current_image: Option<int>,
    pub cache: Seq<ImageView>,
}

/// The pointers, as mathematical values.
pub open spec fn cursor_views(cursors: Seq<(u32, Cursor)>) -> Seq<(u32, CursorView)> {
    Seq::new(cursors.len(), |i: int| (cursors[i].0, cursors[i].1@))
}

impl View for CursorStateInner {
    type V = CursorStateView;

    closed spec fn view(&self) -> CursorStateView {
        CursorStateView {
            current: self.current_cursor,
            size: self.cursor_size,
            cursors: cursor_views(self.cursors@),
            current_image: match self.current_image {
                Some(i) => Some(i as int),
                None => None,
            },
            cache: image_views(self.image_cache@),
        }
    }
}

/// Whether the pointer at a place has the shape.
pub open spec fn shape_is(cursors: Seq<(u32, CursorView)>, shape: u32) -> spec_fn(int) -> bool {
    |i: int| cursors[i].0 == shape
}

/// Whether the image at a place is the one.
pub open spec fn image_is(cache: Seq<ImageView>, image: ImageView) -> spec_fn(int) -> bool {
    |i: int| cache[i] == image
}

impl CursorStateView {
    /// Where the pointer of a shape stands.
    pub open spec fn cursor_place(self, shape: u32) -> Option<int> {
        search::first_below(self.cursors.len(), shape_is(self.cursors, shape))
    }

    /// Where an image stands among those that were uploaded.
    pub open spec fn cached(self, image: ImageView) -> Option<int> {
        search::first_below(self.cache.len(), image_is(self.cache, image))
    }

    /// What to draw for the pointer: the shape that the compositor wants, or else what the
    /// client wants.
    pub open spec fn choice(self, status: CursorImageStatus) -> CursorChoice {
        match self.current {
            Some(shape) => CursorChoice::Named(shape),
            None => match status {
                CursorImageStatus::Named(shape) => CursorChoice::Named(shape),
                CursorImageStatus::Surface => CursorChoice::Surface,
                CursorImageStatus::Hidden => CursorChoice::Nothing,
            },
        }
    }

    /// The scale that an image was drawn for: how many times the wanted size it is, and one at
    /// least.
    pub open spec fn image_scale(self, image: ImageView) -> int {
        if image.size / self.size >= 1 {
            image.size as int / self.size as int
        } else {
            1
        }
    }

    /// The state once an image is shown.
    pub open spec fn with_image(self, image: ImageView) -> CursorStateView {
        match self.cached(image) {
            Some(i) => CursorStateView { current_image: Some(i), ..self },
            None => CursorStateView {
                current_image: Some(self.cache.len() as int),
                cache: self.cache.push(image),
                ..self
            },
        }
    }
}

impl CursorStateInner {
    /// Nothing loaded yet; the compositor wants the given shape.
    pub fn new(shape: u32, size: u32) -> (r: CursorStateInner)
        ensures
            r@ == (CursorStateView {
                current: Some(shape),
                size,
                cursors: Seq::empty(),
                current_image: None,
                cache: Seq::empty(),
            }),
    {
        let r = CursorStateInner {
            current_cursor: Some(shape),
            cursor_size: size,
            cursors: Vec::new(),
            current_image: None,
            image_cache: Vec::new(),
        };
        assert(r@.cursors =~= Seq::<(u32, CursorView)>::empty());
        assert(r@.cache =~= Seq::<ImageView>::empty());
        r
    }

    /// The size that is wanted.
    pub fn size(&self) -> (r: u32)
        ensures
            r == self@.size,
    {
        self.cursor_size
    }

    /// Takes note of what a client wants the pointer to look like. A shape becomes the one
    /// that is drawn from now on.
    pub fn cursor_image(&mut self, status: CursorImageStatus)
        ensures
            final(self)@ == (match status {
                CursorImageStatus::Named(shape) => CursorStateView {
                    current: Some(shape),
                    ..old(self)@
                },
                _ => old(self)@,
            }),
    {
        match status {
            CursorImageStatus::Named(shape) => {
                self.current_cursor = Some(shape);
            },
            _ => {},
        }
    }

    /// What to draw for the pointer.
    pub fn cursor_to_draw(&self, status: CursorImageStatus) -> (r: CursorChoice)
        ensures
            r == self@.choice(status),
    {
        match self.current_cursor {
            Some(shape) => CursorChoice::Named(shape),
            None => match status {
                CursorImageStatus::Named(shape) => CursorChoice::Named(shape),
                CursorImageStatus::Surface => CursorChoice::Surface,
                CursorImageStatus::Hidden => CursorChoice::Nothing,
            },
        }
    }

    /// The place of the pointer of a shape, if it was loaded.
    pub fn find_cursor(&self, shape: u32) -> (r: Option<usize>)
        ensures
            match r {
                Some(i) => self@.cursor_place(shape) == Some(i as int) && i < self@.cursors.len(),
                None => self@.cursor_place(shape) is None,
            },
    {
        let ghost p = shape_is(self@.cursors, shape);
        let mut i: usize = 0;
        while i < self.cursors.len()
            invariant
                i <= self@.cursors.len(),
                p == shape_is(self@.cursors, shape),
                forall|j: int| 0 <= j < i ==> !(#[trigger] p(j)),
            decreases self@.cursors.len() - i,
        {
            if self.cursors[i].0 == shape {
                proof {
                    search::lemma_is_first_below(self@.cursors.len(), p, i as int);
                }
                return Some(i);
            }
            i = i + 1;
        }
        proof {
            search::lemma_none_below(self@.cursors.len(), p);
        }
        None
    }

    /// The pointer of a shape. `load` is used where the shape was not loaded before.
    pub fn get_named_cursor(&mut self, shape: u32, load: Cursor) -> (r: usize)
        ensures
            r < final(self)@.cursors.len(),
            match old(self)@.cursor_place(shape) {
                Some(i) => r == i && final(self)@ == old(self)@,
                None => r == old(self)@.cursors.len() && final(self)@ == (CursorStateView {
                    cursors: old(self)@.cursors.push((shape, load@)),
                    ..old(self)@
                }),
            },
    {
        match self.find_cursor(shape) {
            Some(i) => i,
            None => {
                let place: usize = self.cursors.len();
                self.cursors.push((shape, load));
                assert(self@.cursors =~= old(self)@.cursors.push((shape, load@)));
                place
            },
        }
    }

    fn find_image(&self, image: &Image) -> (r: Option<usize>)
        ensures
            match r {
                Some(i) => self@.cached(image@) == Some(i as int) && i < self@.cache.len(),
                None => self@.cached(image@) is None,
            },
    {
        let ghost p = image_is(self@.cache, image@);
        let mut i: usize = 0;
        while i < self.image_cache.len()
            invariant
                i <= self@.cache.len(),
                p == image_is(self@.cache, image@),
                forall|j: int| 0 <= j < i ==> !(#[trigger] p(j)),
            decreases self@.cache.len() - i,
        {
            if self.image_cache[i].same_as(image) {
                proof {
                    search::lemma_is_first_below(self@.cache.len(), p, i as int);
                }
                return Some(i);
            }
            i = i + 1;
        }
        proof {
            search::lemma_none_below(self@.cache.len(), p);
        }
        None
    }

    /// The image at a place among those that were uploaded.
    pub fn image(&self, i: usize) -> (r: Option<&Image>)
        ensures
            match r {
                Some(image) => i < self@.cache.len() && image@ == self@.cache[i as int],
                None => i >= self@.cache.len(),
            },
    {
        if i < self.image_cache.len() {
            Some(&self.image_cache[i])
        } else {
            None
        }
    }

    /// Draws the pointer at a place among those that were loaded. `None`: it cannot be drawn.
    pub fn draw_cursor(&mut self, cursor: usize, scale: u32, millis: u32) -> (r: Option<CursorFrame>)
        ensures
            match r {
                Some(frame) => {
                    let image = old(self)@.cursors[cursor as int].1.image(scale, millis);
                    &&& cursor < old(self)@.cursors.len()
                    &&& old(self)@.size > 0
                    &&& old(self)@.cursors[cursor as int].1.drawable_at(scale)
                    &&& final(self)@ == old(self)@.with_image(image)
                    &&& final(self)@.current_image == Some(frame.image as int)
                    &&& frame.upload == (old(self)@.cached(image) is None)
                    &&& frame.scale == old(self)@.image_scale(image)
                    &&& frame.hotspot_x == image.xhot / frame.scale
                    &&& frame.hotspot_y == image.yhot / frame.scale
                },
                None => final(self)@ == old(self)@ && (cursor >= old(self)@.cursors.len() || old(
                    self,
                )@.size == 0 || !old(self)@.cursors[cursor as int].1.drawable_at(scale)),
            },
    {
        if cursor >= self.cursors.len() || self.cursor_size == 0 || !self.cursors[cursor].1.can_draw(
            scale,
        ) {
            return None;
        }
        let image = self.cursors[cursor].1.get_image(scale, millis);
        let times: u32 = image.size / self.cursor_size;
        let actual: u32 = if times >= 1 {
            times
        } else {
            1
        };
        let hotspot_x: u32 = image.xhot / actual;
        let hotspot_y: u32 = image.yhot / actual;
        let (place, upload): (usize, bool) = match self.find_image(&image) {
            Some(i) => (i, false),
            None => {
                let end: usize = self.image_cache.len();
                let ghost shown = image@;
                self.image_cache.push(image);
                assert(self@.cache =~= old(self)@.cache.push(shown));
                (end, true)
            },
        };
        self.current_image = Some(place);
        Some(CursorFrame { image: place, upload, scale: actual, hotspot_x, hotspot_y })
    }
}

/// An image is uploaded once: when it is shown again, it is found.
pub proof fn law_uploaded_once(s: CursorStateView, image: ImageView)
    ensures
        s.with_image(image).cached(image) is Some,
        s.with_image(image).with_image(image) == s.with_image(image),
{
    let t = s.with_image(image);
    let p = image_is(s.cache, image);
    let q = image_is(t.cache, image);
    search::lemma_first_below(s.cache.len(), p);
    match s.cached(image) {
        Some(i) => {},
        None => {
            let last = s.cache.len() as int;
            assert(t.cache[last] == image);
            assert(q(last));
            assert forall|j: int| 0 <= j < last implies !(#[trigger] q(j)) by {
                assert(!p(j));
            }
            search::lemma_is_first_below(t.cache.len(), q, last);
        },
    }
}

/// The image of an animation at a time is the one whose turn it is: each stays for its delay, one
/// after the other, from the start of the round on.
pub proof fn law_frame_in_turn(images: Seq<ImageView>, millis: int, k: int)
    requires
        0 <= k < images.len(),
        0 <= millis,
        millis <= total_delay(images.take(k)) + images[k].delay,
        k > 0 ==> millis > total_delay(images.take(k)),
    ensures
        frame_index(images, millis) == Some(k),
{
    let p = shown_at(images, millis);
    assert(p(k));
    assert forall|j: int| 0 <= j < k implies !(#[trigger] p(j)) by {
        lemma_delays_grow(images, j + 1, k);
        assert(images.take(j + 1).drop_last() =~= images.take(j));
        assert(images.take(j + 1).last() == images[j]);
    }
    search::lemma_is_first_below(images.len(), p, k);
}

proof fn lemma_delays_grow(images: Seq<ImageView>, i: int, j: int)
    requires
        0 <= i <= j <= images.len(),
    ensures
        total_delay(images.take(i)) <= total_delay(images.take(j)),
    decreases j - i,
{
    if i < j {
        lemma_delays_grow(images, i, j - 1);
        assert(images.take(j).drop_last() =~= images.take(j - 1));
    }
}

/// A round takes as long as the delays of its images together.
pub proof fn law_round(images: Seq<ImageView>, image: ImageView, millis: u32)
    ensures
        total_delay(Seq::empty()) == 0,
        total_delay(images.push(image)) == total_delay(images) + image.delay,
        within(millis, 0) == 0,
        total_delay(images) > 0 ==> 0 <= within(millis, total_delay(images)) < total_delay(images),
        millis < total_delay(images) ==> within(millis, total_delay(images)) == millis,
{
    assert(images.push(image).drop_last() =~= images);
    let t = total_delay(images);
    if t > 0 {
        assert(0 <= millis as int % t < t) by (nonlinear_arith)
            requires
                t > 0,
        ;
        if millis < t {
            assert(millis as int % t == millis) by (nonlinear_arith)
                requires
                    0 <= millis < t,
            ;
        }
    }
}

/// The pointer has the images of its own shape, or else those of the default one, or else the
/// built-in one, which is 64 pixels wide and high.
pub proof fn law_chosen_images(
    own: Option<Seq<ImageView>>,
    default: Option<Seq<ImageView>>,
    fallback: Seq<u8>,
)
    ensures
        own matches Some(images) ==> chosen_images(own, default, fallback) == images,
        own is None ==> (default matches Some(images) ==> chosen_images(own, default, fallback)
            == images),
        own is None && default is None ==> ({
            let images = chosen_images(own, default, fallback);
            &&& images.len() == 1
            &&& images[0].width == 64
            &&& images[0].height == 64
            &&& images[0].pixels_rgba == fallback
        }),
{
}

/// What an icon file gives: its images, or why it gives none.
pub proof fn law_icon_errors(file: IconFile)
    ensures
        file is Missing <==> icon_images(file) == Err::<Seq<ImageView>, CursorError>(
            CursorError::NoDefaultCursor,
        ),
        file is Unreadable <==> icon_images(file) == Err::<Seq<ImageView>, CursorError>(
            CursorError::File,
        ),
        file matches IconFile::Read(content) ==> (xcursor_images(content@) matches Some(images)
            ==> icon_images(file) == Ok::<Seq<ImageView>, CursorError>(images)),
        file matches IconFile::Read(content) ==> (xcursor_images(content@) is None ==> icon_images(
            file,
        ) == Err::<Seq<ImageView>, CursorError>(CursorError::Parse)),
        icon_images(file) matches Ok(images) ==> loaded(file) == Some(images),
        icon_images(file) is Err ==> loaded(file) is None,
{
}

/// A shape that the program sets goes before what the client asks for; else the pointer is what
/// the client asks for, and nothing is drawn if it is hidden.
pub proof fn law_pointer_choice(s: CursorStateView, status: CursorImageStatus)
    ensures
        s.current matches Some(shape) ==> s.choice(status) == CursorChoice::Named(shape),
        s.current is None && status is Hidden ==> s.choice(status) == CursorChoice::Nothing,
        s.current is None && status is Surface ==> s.choice(status) == CursorChoice::Surface,
        s.current is None ==> (status matches CursorImageStatus::Named(shape) ==> s.choice(status)
            == CursorChoice::Named(shape)),
{
}

/// The scale of an image is how many times as large it is as the pointer is to be, at least once.
pub proof fn law_image_scale(s: CursorStateView, image: ImageView)
    requires
        s.size > 0,
    ensures
        ({
            let n = s.image_scale(image);
            &&& n >= 1
            &&& image.size >= s.size ==> n * s.size <= image.size < (n + 1) * s.size
            &&& image.size < s.size ==> n == 1
        }),
{
    let a = image.size as int;
    let d = s.size as int;
    let q = a / d;
    assert(q * d <= a < (q + 1) * d && (a >= d ==> q >= 1) && (a < d ==> q == 0))
        by (nonlinear_arith)
        requires
            a >= 0,
            d > 0,
            q == a / d,
    ;
}

/// The images that are drawn are those with as many pixels, each way, as the first of those whose
/// nominal size differs least from the wanted one, be it above or below.
pub proof fn law_nearest_size(size: u32, images: Seq<ImageView>, j: int, x: ImageView)
    requires
        0 <= j < images.len(),
    ensures
        ({
            let best = nearest(size, images, images.len());
            let far = |i: int|
                if images[i].size > size {
                    images[i].size - size
                } else {
                    size - images[i].size
                };
            &&& 0 <= best < images.len()
            &&& far(best) <= far(j)
            &&& j < best ==> far(best) < far(j)
            &&& animation(size, images).contains(x) <==> images.contains(x) && x.width
                == images[best].width && x.height == images[best].height
        }),
{
    law_nearest(size, images, j);
    let best = images[nearest(size, images, images.len())];
    lemma_filter_members(images, of_size(best.width, best.height), x);
}

} // verus!
