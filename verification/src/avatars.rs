//! Sender pictures: Gravatar first, then the sender's domain favicon. Cached
//! on disk between runs, an empty file recording that nobody has one, since
//! most senders don't and that answer otherwise costs three HTTP requests per
//! launch.

use vstd::prelude::*;
use vstd::slice::slice_to_vec;
use vstd::utf8;
use crate::codec;
use crate::mail;
use crate::text;

verus! {

/// The most bytes that a picture may have.
pub const MAX_BYTES: usize = 262144;

/// How many seconds a request for a picture may take.
pub const TIMEOUT_SECONDS: u64 = 5;

/// How many seconds a cached lookup is trusted. Long, because it mostly caches the
/// answer "nobody has one", and finite so a sender who later gets a picture
/// eventually shows it.
pub const CACHE_TTL_SECONDS: u64 = 2592000;

/// An icon at least this wide ends the search for a larger one.
pub const MIN_ICON_PX: u32 = 64;

/// Shared mail hosts: a favicon here would give every sender the same logo.
pub open spec fn is_freemail(domain: Seq<char>) -> bool {
    domain == "aol.com"@ || domain == "gmail.com"@ || domain == "googlemail.com"@ || domain
        == "gmx.com"@ || domain == "gmx.de"@ || domain == "hotmail.com"@ || domain == "icloud.com"@
        || domain == "live.com"@ || domain == "mail.com"@ || domain == "me.com"@ || domain
        == "outlook.com"@ || domain == "pm.me"@ || domain == "proton.me"@ || domain
        == "protonmail.com"@ || domain == "yahoo.com"@ || domain == "yandex.com"@ || domain
        == "zoho.com"@
}

fn freemail(domain: &str) -> (r: bool)
    ensures
        r == is_freemail(domain@),
{
    text::same_str(domain, "aol.com") || text::same_str(domain, "gmail.com") || text::same_str(
        domain,
        "googlemail.com",
    ) || text::same_str(domain, "gmx.com") || text::same_str(domain, "gmx.de") || text::same_str(
        domain,
        "hotmail.com",
    ) || text::same_str(domain, "icloud.com") || text::same_str(domain, "live.com")
        || text::same_str(domain, "mail.com") || text::same_str(domain, "me.com")
        || text::same_str(domain, "outlook.com") || text::same_str(domain, "pm.me")
        || text::same_str(domain, "proton.me") || text::same_str(domain, "protonmail.com")
        || text::same_str(domain, "yahoo.com") || text::same_str(domain, "yandex.com")
        || text::same_str(domain, "zoho.com")
}

// --- where pictures are ---------------------------------------------------

/// What an address is known by: the SHA-256 of its UTF-8 form, in hexadecimal.
pub open spec fn hash_of(address: Seq<char>) -> Seq<char> {
    codec::hex_text(codec::sha256(utf8::encode_utf8(address)))
}

fn hash(address: &str) -> (r: String)
    ensures
        r@ == hash_of(address@),
{
    codec::hex_encode(&codec::digest(address.as_bytes()))
}

/// Where Gravatar keeps the picture of an address.
pub open spec fn gravatar_of(address: Seq<char>) -> Option<Seq<char>> {
    if address.contains('@') {
        Some("https://gravatar.com/avatar/"@ + hash_of(address) + "?s=128&d=404"@)
    } else {
        None
    }
}

/// The Gravatar picture of an address, which says that there is none with a 404.
pub fn gravatar_url(address: &str) -> (r: Option<String>)
    ensures
        mail::opt(r) == gravatar_of(address@),
{
    if text::has_char(&text::chars_of(address), '@') {
        let mut out = text::chars_of("https://gravatar.com/avatar/");
        text::extend_str(&mut out, &hash(address));
        text::extend_str(&mut out, "?s=128&d=404");
        Some(text::text_of(&out))
    } else {
        None
    }
}

/// What follows the last at sign of an address, or all of it where it has none.
pub open spec fn domain_of(address: Seq<char>) -> Seq<char> {
    address.skip(text::rfind(address, '@') + 1)
}

/// Where the icons of an address's domain are.
pub open spec fn favicons_of(address: Seq<char>) -> Seq<Seq<char>> {
    let domain = domain_of(address);
    if !domain.contains('.') || is_freemail(domain) {
        Seq::empty()
    } else {
        seq![
            "https://icons.duckduckgo.com/ip3/"@ + domain + ".ico"@,
            "https://www.google.com/s2/favicons?domain="@ + domain + "&sz=128"@,
        ]
    }
}

/// Where the icons of an address's domain are, unless many senders share it.
pub fn favicon_urls(address: &str) -> (r: Vec<String>)
    ensures
        text::texts(r@) == favicons_of(address@),
{
    let chars = text::chars_of(address);
    let start: usize = match text::rfind_char(&chars, '@') {
        Some(at) => at + 1,
        None => 0,
    };
    let domain = text::slice_of(&chars, start, chars.len());
    assert(domain@ =~= domain_of(address@));
    let mut out: Vec<String> = Vec::new();
    if text::has_char(&domain, '.') && !freemail(&text::text_of(&domain)) {
        let mut first = text::chars_of("https://icons.duckduckgo.com/ip3/");
        text::extend(&mut first, &domain);
        text::extend_str(&mut first, ".ico");
        let mut second = text::chars_of("https://www.google.com/s2/favicons?domain=");
        text::extend(&mut second, &domain);
        text::extend_str(&mut second, "&sz=128");
        out.push(text::text_of(&first));
        out.push(text::text_of(&second));
    }
    assert(text::texts(out@) =~= favicons_of(address@));
    out
}

// --- the cache ------------------------------------------------------------

/// The form of an address that pictures are looked up by.
pub open spec fn normal_form(address: Seq<char>) -> Seq<char> {
    text::lowercase(text::trim(address))
}

/// The form of an address that pictures are looked up by: in lower case, with no white space around.
pub fn normalized(address: &str) -> (r: String)
    ensures
        r@ == normal_form(address@),
{
    text::to_lowercase(&text::trim_str(address))
}

/// The path below the cache directory of what is known of an address.
pub fn cache_path(address: &str) -> (r: String)
    ensures
        r@ == "avatars/"@ + hash_of(address@),
{
    let mut out = text::chars_of("avatars/");
    text::extend_str(&mut out, &hash(address));
    text::text_of(&out)
}

/// Whether what is cached is trusted, given its age in seconds, if that is known.
pub fn cache_is_fresh(age_seconds: Option<u64>) -> (r: bool)
    ensures
        r == (age_seconds matches Some(age) && age < CACHE_TTL_SECONDS),
{
    match age_seconds {
        Some(age) => age < CACHE_TTL_SECONDS,
        None => false,
    }
}

/// The bytes of an optional picture.
pub open spec fn image_of(image: Option<Vec<u8>>) -> Option<Seq<u8>> {
    match image {
        Some(data) => Some(data@),
        None => None,
    }
}

/// What a cached file holds: nothing if it could not be read, is empty or is no picture.
pub open spec fn cached(data: Option<Seq<u8>>, decodes: bool) -> Option<Seq<u8>> {
    match data {
        Some(d) => if d.len() > 0 && decodes {
            Some(d)
        } else {
            None
        },
        None => None,
    }
}

/// The picture in a cached file that was read, or not, and that decodes as a picture, or not.
pub fn cached_image(data: Option<Vec<u8>>, decodes: bool) -> (r: Option<Vec<u8>>)
    ensures
        image_of(r) == cached(image_of(data), decodes),
{
    match data {
        Some(d) => if d.len() > 0 && decodes {
            Some(d)
        } else {
            None
        },
        None => None,
    }
}

/// What is cached of a picture: its bytes, or none where nobody has one.
pub open spec fn contents_for(image: Option<Seq<u8>>) -> Seq<u8> {
    match image {
        Some(data) => data,
        None => Seq::empty(),
    }
}

/// What to write to the cache for the outcome of a lookup.
pub fn cache_contents(image: &Option<Vec<u8>>) -> (r: Vec<u8>)
    ensures
        r@ == contents_for(image_of(*image)),
{
    match image {
        Some(data) => slice_to_vec(data),
        None => Vec::new(),
    }
}

/// What was written to the cache reads back: a picture as itself, and that nobody has one as that.
pub proof fn cache_reads_back(image: Option<Seq<u8>>)
    requires
        image matches Some(data) ==> data.len() > 0,
    ensures
        cached(Some(contents_for(image)), true) == image,
        cached(Some(contents_for(None)), false) is None,
{
}

// --- the lookup -----------------------------------------------------------

/// A picture that was loaded.
#[derive(Debug, PartialEq, Eq)]
pub struct Loaded {
    pub data: Vec<u8>,
    pub width: u32,
}

/// What a reply holds: its bytes and its width, unless it is empty, too long or no picture.
pub open spec fn loaded_of(data: Seq<u8>, width: Option<u32>) -> Option<(Seq<u8>, u32)> {
    match width {
        Some(w) => if 0 < data.len() <= MAX_BYTES {
            Some((data, w))
        } else {
            None
        },
        None => None,
    }
}

/// The parts of an optional loaded picture.
pub open spec fn parts_of(image: Option<Loaded>) -> Option<(Seq<u8>, u32)> {
    match image {
        Some(l) => Some((l.data@, l.width)),
        None => None,
    }
}

/// The parts of the pictures in some replies.
pub open spec fn replies_view(replies: Seq<Option<Loaded>>) -> Seq<Option<(Seq<u8>, u32)>> {
    Seq::new(replies.len(), |i: int| parts_of(replies[i]))
}

/// The picture in a reply of at most one byte more than allowed, with the width that it decodes to.
pub fn accepted(data: Vec<u8>, width: Option<u32>) -> (r: Option<Loaded>)
    ensures
        parts_of(r) == loaded_of(data@, width),
{
    match width {
        Some(w) => if data.len() > 0 && data.len() <= MAX_BYTES {
            Some(Loaded { data, width: w })
        } else {
            None
        },
        None => None,
    }
}

/// What to do next in looking for a picture.
#[derive(Debug, PartialEq, Eq)]
pub enum FetchStep {
    /// Load the picture at this URL.
    Load(String),
    /// This is the picture, if anybody has one: cache it.
    Done(Option<Vec<u8>>),
}

/// What a step says.
pub enum StepView {
    Load(Seq<char>),
    Done(Option<Seq<u8>>),
}

impl View for FetchStep {
    type V = StepView;

    open spec fn view(&self) -> StepView {
        match self {
            FetchStep::Load(url) => StepView::Load(url@),
            FetchStep::Done(image) => StepView::Done(image_of(*image)),
        }
    }
}

/// The larger of two icons, the first where they are equal.
pub open spec fn larger(best: Option<(Seq<u8>, u32)>, next: Option<(Seq<u8>, u32)>) -> Option<
    (Seq<u8>, u32),
> {
    match (best, next) {
        (_, None) => best,
        (None, _) => next,
        (Some(b), Some(n)) => if n.1 > b.1 {
            next
        } else {
            best
        },
    }
}

/// The bytes of an optional icon.
pub open spec fn bytes_of(icon: Option<(Seq<u8>, u32)>) -> Option<Seq<u8>> {
    match icon {
        Some((data, width)) => Some(data),
        None => None,
    }
}

/// The largest icon on offer, stopping early once one is big enough.
pub open spec fn icon_step(
    urls: Seq<Seq<char>>,
    replies: Seq<Option<(Seq<u8>, u32)>>,
    i: int,
    best: Option<(Seq<u8>, u32)>,
) -> StepView
    decreases urls.len() - i,
{
    if (best matches Some(b) && b.1 >= MIN_ICON_PX) || i < 0 || i >= urls.len() {
        StepView::Done(bytes_of(best))
    } else if i >= replies.len() {
        StepView::Load(urls[i])
    } else {
        icon_step(urls, replies, i + 1, larger(best, replies[i]))
    }
}

/// What comes after some replies: the Gravatar picture if there is one, else the best icon.
pub open spec fn step_after(
    address: Seq<char>,
    replies: Seq<Option<(Seq<u8>, u32)>>,
) -> StepView {
    match gravatar_of(address) {
        Some(url) => if replies.len() == 0 {
            StepView::Load(url)
        } else if replies[0] is Some {
            StepView::Done(bytes_of(replies[0]))
        } else {
            icon_step(favicons_of(address), replies.skip(1), 0, None)
        },
        None => icon_step(favicons_of(address), replies, 0, None),
    }
}

fn copied(image: &Loaded) -> (r: Option<Vec<u8>>)
    ensures
        image_of(r) == Some(image.data@),
{
    Some(slice_to_vec(&image.data))
}

/// What to do next for the first picture any lookup has for this address, given the replies to the
/// loads so far.
pub fn fetch(address: &str, replies: &[Option<Loaded>]) -> (r: FetchStep)
    ensures
        r@ == step_after(address@, replies_view(replies@)),
{
    let ghost views = replies_view(replies@);
    let mut start: usize = 0;
    if let Some(url) = gravatar_url(address) {
        if replies.len() == 0 {
            return FetchStep::Load(url);
        }
        if let Some(image) = &replies[0] {
            assert(views[0] == parts_of(replies@[0]));
            return FetchStep::Done(copied(image));
        }
        assert(views[0] is None);
        start = 1;
    }
    let urls = favicon_urls(address);
    let ghost url_views = text::texts(urls@);
    let ghost rest = if start == 1 {
        views.skip(1)
    } else {
        views
    };
    let mut best: Option<usize> = None;
    let mut i: usize = 0;
    while i < urls.len()
        invariant
            i <= urls.len(),
            start <= 1,
            start <= replies.len(),
            views == replies_view(replies@),
            url_views == text::texts(urls@),
            rest == (if start == 1 {
                views.skip(1)
            } else {
                views
            }),
            step_after(address@, views) == icon_step(
                url_views,
                rest,
                i as int,
                best_of(replies@, best),
            ),
            best matches Some(b) ==> b < replies.len() && replies@[b as int] is Some,
        decreases urls.len() - i,
    {
        if let Some(b) = best {
            if let Some(image) = &replies[b] {
                if image.width >= MIN_ICON_PX {
                    return FetchStep::Done(copied(image));
                }
            }
        }
        if i >= replies.len() - start {
            assert(url_views[i as int] == urls@[i as int]@);
            return FetchStep::Load(urls[i].clone());
        }
        assert(rest[i as int] == parts_of(replies@[start + i]));
        if let Some(next) = &replies[start + i] {
            let wins = match best {
                Some(b) => match &replies[b] {
                    Some(image) => next.width > image.width,
                    None => false,
                },
                None => true,
            };
            if wins {
                best = Some(start + i);
            }
        }
        i = i + 1;
    }
    match best {
        Some(b) => match &replies[b] {
            Some(image) => FetchStep::Done(copied(image)),
            None => FetchStep::Done(None),
        },
        None => FetchStep::Done(None),
    }
}

/// The icon in the reply that is the best so far.
pub open spec fn best_of(replies: Seq<Option<Loaded>>, best: Option<usize>) -> Option<
    (Seq<u8>, u32),
> {
    match best {
        Some(b) => parts_of(replies[b as int]),
        None => None,
    }
}

/// Whether a reply brought a picture that is wide enough to stop at.
pub open spec fn is_big(reply: Option<(Seq<u8>, u32)>) -> bool {
    reply is Some && reply.unwrap().1 >= MIN_ICON_PX
}

/// Whether a reply, of the first `n`, brought the widest picture, and the first of that width.
pub open spec fn is_widest(replies: Seq<Option<(Seq<u8>, u32)>>, n: int, m: int) -> bool {
    &&& 0 <= m < n <= replies.len()
    &&& replies[m] is Some
    &&& forall|j: int|
        0 <= j < n && (#[trigger] replies[j]) is Some ==> replies[j].unwrap().1 <= replies[m].unwrap().1 && (j
            < m ==> replies[j].unwrap().1 < replies[m].unwrap().1)
}

/// The icons of a domain are asked for one after the other. The first that is wide enough is taken;
/// where none is, the widest is, and none where there was no icon at all.
pub proof fn the_widest_icon_is_taken(
    urls: Seq<Seq<char>>,
    replies: Seq<Option<(Seq<u8>, u32)>>,
    k: int,
)
    requires
        0 <= k <= urls.len(),
        k <= replies.len(),
        forall|j: int| 0 <= j < k ==> !is_big(#[trigger] replies[j]),
    ensures
        k < urls.len() && k < replies.len() && is_big(replies[k]) ==> icon_step(
            urls,
            replies,
            0,
            None,
        ) == StepView::Done(Some(replies[k].unwrap().0)),
        k < urls.len() && k == replies.len() ==> icon_step(urls, replies, 0, None)
            == StepView::Load(urls[k]),
        k == urls.len() ==> forall|m: int|
            #[trigger] is_widest(replies, k, m) ==> icon_step(urls, replies, 0, None)
                == StepView::Done(Some(replies[m].unwrap().0)),
        k == urls.len() && (forall|j: int| 0 <= j < k ==> (#[trigger] replies[j]) is None)
            ==> icon_step(urls, replies, 0, None) == StepView::Done(None),
{
    let best = icons_are_weighed(urls, replies, k);
    if k < urls.len() && k < replies.len() && is_big(replies[k]) {
        assert(larger(best, replies[k]) == replies[k]);
        assert(icon_step(urls, replies, k, best) == icon_step(urls, replies, k + 1, replies[k]));
    }
    if k == urls.len() {
        assert forall|m: int| #[trigger] is_widest(replies, k, m) implies icon_step(
            urls,
            replies,
            0,
            None,
        ) == StepView::Done(Some(replies[m].unwrap().0)) by {
            assert(replies[m] is Some);
            let b = choose|b: int| is_widest(replies, k, b) && best == replies[b];
            assert(replies[b] is Some);
            assert(b == m);
        }
    }
}

proof fn icons_are_weighed(
    urls: Seq<Seq<char>>,
    replies: Seq<Option<(Seq<u8>, u32)>>,
    k: int,
) -> (best: Option<(Seq<u8>, u32)>)
    requires
        0 <= k <= urls.len(),
        k <= replies.len(),
        forall|j: int| 0 <= j < k ==> !is_big(#[trigger] replies[j]),
    ensures
        icon_step(urls, replies, 0, None) == icon_step(urls, replies, k, best),
        !is_big(best),
        best is None ==> forall|j: int| 0 <= j < k ==> (#[trigger] replies[j]) is None,
        best is Some ==> exists|m: int| #[trigger] is_widest(replies, k, m) && best == replies[m],
    decreases k,
{
    if k == 0 {
        None
    } else {
        let before = icons_are_weighed(urls, replies, k - 1);
        let best = larger(before, replies[k - 1]);
        assert(!is_big(replies[k - 1]));
        assert(icon_step(urls, replies, k - 1, before) == icon_step(urls, replies, k, best));
        if best is Some {
            if before is Some {
                let m = choose|m: int|
                    #[trigger] is_widest(replies, k - 1, m) && before == replies[m];
                if best == replies[m] && !(replies[k - 1] is Some && replies[k - 1].unwrap().1
                    > replies[m].unwrap().1) {
                    assert(is_widest(replies, k, m));
                } else {
                    assert(is_widest(replies, k, k - 1));
                }
            } else {
                assert(is_widest(replies, k, k - 1));
            }
        }
        best
    }
}

/// The picture that a sender keeps at Gravatar is asked for first, and comes before any icon of
/// their domain. An address that is none is not asked about there.
pub proof fn pictures_come_before_icons(
    address: Seq<char>,
    replies: Seq<Option<(Seq<u8>, u32)>>,
)
    ensures
        address.contains('@') && replies.len() > 0 && replies[0] is Some ==> step_after(
            address,
            replies,
        ) == StepView::Done(Some(replies[0].unwrap().0)),
        address.contains('@') ==> step_after(address, Seq::empty()) is Load,
        address.contains('@') && replies.len() > 0 && replies[0] is None ==> step_after(
            address,
            replies,
        ) == icon_step(favicons_of(address), replies.skip(1), 0, None),
        !address.contains('@') ==> step_after(address, replies) == icon_step(
            favicons_of(address),
            replies,
            0,
            None,
        ),
{
}

} // verus!
