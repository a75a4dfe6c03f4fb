use vstd::prelude::*;
use crate::registry::{Key, Registry};

verus! {

/// Where an asynchronously loaded image comes from.
#[derive(Clone, Copy, Debug, PartialEq, Eq, Structural)]
pub enum ImageLoadPayloadType {
    Remote,
    Disk,
}

impl Default for ImageLoadPayloadType {
    fn default() -> (r: Self)
        ensures
            r == ImageLoadPayloadType::Remote,
    {
        ImageLoadPayloadType::Remote
    }
}

/// The token that matches an asynchronous request to its completion; id 0
/// stands for no request.
#[derive(Clone, Copy, Debug, PartialEq, Eq, Structural)]
pub struct AsyncLoadHandle {
    pub id: u32,
}

impl Default for AsyncLoadHandle {
    fn default() -> (r: Self)
        ensures
            r.id == 0,
    {
        AsyncLoadHandle { id: 0 }
    }
}

/// A texture uploaded to the graphics backend: its id (0 for none) and size in pixels.
#[derive(Clone, Copy, Debug, PartialEq, Eq, Structural)]
pub struct Texture {
    pub texture_id: u32,
    pub width: u32,
    pub height: u32,
}

impl Default for Texture {
    fn default() -> (r: Self)
        ensures
            r.texture_id == 0 && r.width == 0 && r.height == 0,
    {
        Texture { texture_id: 0, width: 0, height: 0 }
    }
}

/// A request to the load worker, or its answer. On the way out `texture_id`
/// is 0; on the way back it is the uploaded texture, or 0 where loading failed.
#[derive(Clone, Debug)]
pub struct ImageLoadPayload {
    pub handle: AsyncLoadHandle,
    pub image_type: ImageLoadPayloadType,
    pub path: String,
    pub texture_id: u32,
    pub width: u32,
    pub height: u32,
}

impl View for ImageLoadPayload {
    type V = (AsyncLoadHandle, ImageLoadPayloadType, Seq<char>, u32, u32, u32);

    open spec fn view(&self) -> (AsyncLoadHandle, ImageLoadPayloadType, Seq<char>, u32, u32, u32) {
        (self.handle, self.image_type, self.path@, self.texture_id, self.width, self.height)
    }
}

/// Why an asynchronous request was not issued.
#[derive(Clone, Copy, Debug, PartialEq, Eq, Structural)]
pub enum AsyncLoadError {
    /// The image is already resident, as this texture: there is nothing to wait for.
    ResourceAlreadyExists(u32),
    /// The load worker has stopped.
    FailedToCommunicateWithResourceThread,
    /// Every handle id has been issued.
    HandlesExhausted,
}

/// What to rasterise: the text, the font file and the pixel size.
#[derive(Clone, Debug)]
pub struct TextLoadInfo {
    pub text: String,
    pub font_path: String,
    pub font_size: isize,
}

/// The font that text is set in when no other is named.
pub const DEFAULT_FONT_PATH: &'static str = "res/font/default.otf";

/// The pixel size that text is set at when no other is named.
pub const DEFAULT_FONT_SIZE: isize = 36;

impl Default for TextLoadInfo {
    fn default() -> (r: Self)
        ensures
            r.text@ == Seq::<char>::empty(),
            r.font_path@ == DEFAULT_FONT_PATH@,
            r.font_size == DEFAULT_FONT_SIZE,
    {
        TextLoadInfo { text: String::new(), font_path: DEFAULT_FONT_PATH.to_owned(), font_size: DEFAULT_FONT_SIZE }
    }
}

impl View for TextLoadInfo {
    type V = (Seq<char>, Seq<char>, isize);

    open spec fn view(&self) -> (Seq<char>, Seq<char>, isize) {
        (self.text@, self.font_path@, self.font_size)
    }
}

impl Key for TextLoadInfo {
    fn key_eq(&self, other: &Self) -> (r: bool) {
        self.text == other.text && self.font_path == other.font_path && self.font_size == other.font_size
    }
}

} // verus!

verus! {

/// Why the backend could not produce a texture or a sound.
#[derive(Clone, Debug, PartialEq, Eq)]
pub enum LoadError {
    /// The file could not be read.
    IOError(String),
    /// The bytes are not a valid image or sound.
    DecodeError(String),
    /// The text could not be rasterised or uploaded.
    RenderError(String),
    /// The backend answered with texture 0, which stands for no texture.
    EmptyTexture,
}

/// The work that the loader hands out: decoding and uploading, rasterising,
/// releasing textures, and the two queues to and from the load worker.
pub trait LoaderBackend {
    /// Decodes the image file at `path` and uploads it.
    fn load_image_from_disk(&mut self, path: &str) -> Result<Texture, LoadError>;

    /// Reads the font file at `path`.
    fn read_font(&mut self, path: &str) -> Result<Vec<u8>, LoadError>;

    /// Rasterises `info` in the font `font` (the bytes of `info.font_path`) and uploads it.
    fn render_text_to_texture(&mut self, info: &TextLoadInfo, font: &Vec<u8>) -> Result<Texture, LoadError>;

    /// Loads the sound file at `path` into a buffer that many players can
    /// share, and returns the buffer's id.
    fn load_audio_data(&mut self, path: &str) -> Result<u32, LoadError>;

    /// Frees a texture.
    fn release_texture(&mut self, texture_id: u32);

    /// Hands a request to the load worker; false where the worker has stopped.
    fn send(&mut self, job: ImageLoadPayload) -> bool;

    /// Takes one finished request from the load worker, if one is waiting.
    fn try_recv(&mut self) -> Option<ImageLoadPayload>;
}

/// The view of a request or answer: handle, source, key, texture id and size.
pub type PayloadView = (AsyncLoadHandle, ImageLoadPayloadType, Seq<char>, u32, u32, u32);

/// The view of a rasterising request: text, font path and size.
pub type TextKey = (Seq<char>, Seq<char>, isize);

/// The resource loader: resident textures by path or url, rasterised text by
/// (text, font, size), font files and sound buffers by path, and the requests
/// that are out with the load worker.
pub struct Resources<B> {
    backend: B,
    texture_data: Registry<String, Texture>,
    text_data: Registry<TextLoadInfo, Texture>,
    audio_data: Registry<String, u32>,
    font_data: Registry<String, Vec<u8>>,
    loading: Registry<String, u32>,
    base_handle: AsyncLoadHandle,
    decoded: Ghost<Seq<Seq<char>>>,
    rendered: Ghost<Seq<(TextKey, Seq<u8>)>>,
    fonts_read: Ghost<Seq<Seq<char>>>,
    audio_read: Ghost<Seq<Seq<char>>>,
    sent: Ghost<Seq<PayloadView>>,
    released: Ghost<Seq<u32>>,
}

/// What a load hands back for the backend's answer `b`: the texture where it
/// is one, `EmptyTexture` for texture 0, the backend's error otherwise.
pub open spec fn checked_result(b: Result<Texture, LoadError>) -> Result<Texture, LoadError> {
    match b {
        Ok(t) => if t.texture_id != 0 {
            Ok(t)
        } else {
            Err(LoadError::EmptyTexture)
        },
        Err(e) => Err(e),
    }
}

/// Applies `checked_result` to a backend answer.
pub fn check_texture(b: Result<Texture, LoadError>) -> (r: Result<Texture, LoadError>)
    ensures
        r == checked_result(b),
{
    match b {
        Ok(t) => if t.texture_id != 0 {
            Ok(t)
        } else {
            Err(LoadError::EmptyTexture)
        },
        Err(e) => Err(e),
    }
}

impl<B: LoaderBackend> Resources<B> {
    /// The resident textures, by path or url.
    pub closed spec fn textures(&self) -> Map<Seq<char>, Texture> {
        self.texture_data@
    }

    /// The rasterised text, by text, font and size.
    pub closed spec fn texts(&self) -> Map<TextKey, Texture> {
        self.text_data@
    }

    /// The loaded sound buffers, by path.
    pub closed spec fn audio(&self) -> Map<Seq<char>, u32> {
        self.audio_data@
    }

    /// The font files read so far, by path.
    pub closed spec fn fonts(&self) -> Map<Seq<char>, Vec<u8>> {
        self.font_data@
    }

    /// The handle ids of requests by key; 0 where the request has been answered.
    pub closed spec fn requests(&self) -> Map<Seq<char>, u32> {
        self.loading@
    }

    /// The handle id of the request out for `key`, 0 where there is none.
    pub open spec fn in_flight(&self, key: Seq<char>) -> u32 {
        if self.requests().contains_key(key) {
            self.requests()[key]
        } else {
            0
        }
    }

    /// The id of the last handle issued, 0 before the first.
    pub closed spec fn last_handle(&self) -> u32 {
        self.base_handle.id
    }

    /// Every path handed to the backend to decode, in order.
    pub closed spec fn decoded(&self) -> Seq<Seq<char>> {
        self.decoded@
    }

    /// Every text handed to the backend to rasterise, with the font bytes it
    /// was handed with, in order.
    pub closed spec fn rendered(&self) -> Seq<(TextKey, Seq<u8>)> {
        self.rendered@
    }

    /// Every font path handed to the backend to read, in order.
    pub closed spec fn fonts_read(&self) -> Seq<Seq<char>> {
        self.fonts_read@
    }

    /// Every sound path handed to the backend to load, in order.
    pub closed spec fn audio_read(&self) -> Seq<Seq<char>> {
        self.audio_read@
    }

    /// Every request handed to the load worker, whether it took it or not, in order.
    pub closed spec fn sent(&self) -> Seq<PayloadView> {
        self.sent@
    }

    /// Every texture released through the backend, in order.
    pub closed spec fn released(&self) -> Seq<u32> {
        self.released@
    }

    /// The resident textures in the order `release_all` frees them.
    pub closed spec fn texture_order(&self) -> Seq<Texture> {
        self.texture_data.value_seq()
    }

    /// The rasterised text textures in the order `release_all` frees them.
    pub closed spec fn text_order(&self) -> Seq<Texture> {
        self.text_data.value_seq()
    }

    /// The backend.
    pub closed spec fn backend(&self) -> B {
        self.backend
    }

    /// The internal registries are well formed.
    pub closed spec fn wf(&self) -> bool {
        self.texture_data.wf() && self.text_data.wf() && self.audio_data.wf() && self.font_data.wf()
            && self.loading.wf()
    }

    /// The two release orders list each resident texture and each rasterised
    /// text exactly once, under distinct keys.
    pub proof fn lemma_release_orders(&self)
        requires
            self.wf(),
        ensures
            exists|ks: Seq<Seq<char>>|
                #![trigger ks.len()]
                ks.len() == self.texture_order().len() && ks.len() == self.textures().len()
                    && (forall|i: int, j: int| 0 <= i < j < ks.len() ==> ks[i] != ks[j])
                    && (forall|i: int|
                    0 <= i < ks.len() ==> #[trigger] self.textures().contains_key(ks[i])
                        && self.textures()[ks[i]] == self.texture_order()[i]),
            exists|ks: Seq<TextKey>|
                #![trigger ks.len()]
                ks.len() == self.text_order().len() && ks.len() == self.texts().len()
                    && (forall|i: int, j: int| 0 <= i < j < ks.len() ==> ks[i] != ks[j])
                    && (forall|i: int|
                    0 <= i < ks.len() ==> #[trigger] self.texts().contains_key(ks[i])
                        && self.texts()[ks[i]] == self.text_order()[i]),
    {
        self.texture_data.lemma_entries();
        self.text_data.lemma_entries();
        let a = self.texture_data.key_seq();
        let b = self.text_data.key_seq();
        assert(a.len() == a.len());
        assert(b.len() == b.len());
    }

    /// A loader with nothing resident and nothing out, over `backend`.
    pub fn new(backend: B) -> (r: Self)
        ensures
            r.wf(),
            r.backend() == backend,
            r.textures() == Map::<Seq<char>, Texture>::empty(),
            r.texts() == Map::<TextKey, Texture>::empty(),
            r.audio() == Map::<Seq<char>, u32>::empty(),
            r.fonts() == Map::<Seq<char>, Vec<u8>>::empty(),
            r.requests() == Map::<Seq<char>, u32>::empty(),
            r.last_handle() == 0,
            r.decoded() == Seq::<Seq<char>>::empty(),
            r.rendered() == Seq::<(TextKey, Seq<u8>)>::empty(),
            r.fonts_read() == Seq::<Seq<char>>::empty(),
            r.audio_read() == Seq::<Seq<char>>::empty(),
            r.sent() == Seq::<PayloadView>::empty(),
            r.released() == Seq::<u32>::empty(),
    {
        Resources {
            backend,
            texture_data: Registry::new(),
            text_data: Registry::new(),
            audio_data: Registry::new(),
            font_data: Registry::new(),
            loading: Registry::new(),
            base_handle: AsyncLoadHandle { id: 0 },
            decoded: Ghost(Seq::empty()),
            rendered: Ghost(Seq::empty()),
            fonts_read: Ghost(Seq::empty()),
            audio_read: Ghost(Seq::empty()),
            sent: Ghost(Seq::empty()),
            released: Ghost(Seq::empty()),
        }
    }

    /// `self` and `other` hold the same resident textures, text and sounds.
    pub open spec fn same_caches(&self, other: &Self) -> bool {
        &&& self.textures() == other.textures()
        &&& self.texts() == other.texts()
        &&& self.audio() == other.audio()
        &&& self.fonts() == other.fonts()
    }

    /// `self` and `other` have the same requests out, handle counter and worker log.
    pub open spec fn same_requests(&self, other: &Self) -> bool {
        &&& self.requests() == other.requests()
        &&& self.last_handle() == other.last_handle()
        &&& self.sent() == other.sent()
    }

    /// `self` and `other` have handed the backend the same loads and releases.
    pub open spec fn same_logs(&self, other: &Self) -> bool {
        &&& self.decoded() == other.decoded()
        &&& self.rendered() == other.rendered()
        &&& self.audio_read() == other.audio_read()
        &&& self.fonts_read() == other.fonts_read()
        &&& self.released() == other.released()
    }

    /// `self` and `other` agree on everything but the backend.
    pub open spec fn same_state(&self, other: &Self) -> bool {
        &&& self.wf() == other.wf()
        &&& self.same_caches(other)
        &&& self.same_requests(other)
        &&& self.same_logs(other)
    }

    /// The backend, for the work that only it does.
    pub fn backend_mut(&mut self) -> (r: &mut B)
        ensures
            *r == old(self).backend(),
            final(self).same_state(old(self)),
            final(self).backend() == *final(r),
    {
        &mut self.backend
    }

    /// A synchronous load of the image at `path`, from `before` to `after` with
    /// result `r`: a resident texture is returned as it is and nothing else
    /// happens; else the path is handed to the backend once, and a texture it
    /// gives (never texture 0) becomes resident.
    pub open spec fn disk_load_step(before: Self, path: Seq<char>, r: Result<Texture, LoadError>, after: Self) -> bool {
        if before.textures().contains_key(path) {
            &&& r == Ok::<Texture, LoadError>(before.textures()[path])
            &&& after.same_state(&before)
            &&& after.backend() == before.backend()
        } else {
            &&& after.wf() == before.wf()
            &&& after.decoded() == before.decoded().push(path)
            &&& r is Ok ==> r->Ok_0.texture_id != 0
            &&& after.textures() == match r {
                Ok(t) => before.textures().insert(path, t),
                Err(_) => before.textures(),
            }
            &&& after.texts() == before.texts()
            &&& after.audio() == before.audio()
            &&& after.same_requests(&before)
            &&& after.rendered() == before.rendered()
            &&& after.audio_read() == before.audio_read()
            &&& after.fonts() == before.fonts()
            &&& after.fonts_read() == before.fonts_read()
            &&& after.released() == before.released()
        }
    }

    /// An asynchronous request for the image at `key`, from `before` to `after`
    /// with result `r`: a resident image needs no request; a request that is
    /// out is answered with its handle; else the next handle is issued, the
    /// request (with texture and size 0) is handed to the worker, and it is
    /// marked as out where the worker took it.
    pub open spec fn async_request_step(
        before: Self,
        key: Seq<char>,
        kind: ImageLoadPayloadType,
        r: Result<AsyncLoadHandle, AsyncLoadError>,
        after: Self,
    ) -> bool {
        if before.textures().contains_key(key) {
            &&& r == Err::<AsyncLoadHandle, AsyncLoadError>(
                AsyncLoadError::ResourceAlreadyExists(before.textures()[key].texture_id),
            )
            &&& after.same_state(&before)
            &&& after.backend() == before.backend()
        } else if before.in_flight(key) != 0 {
            &&& r == Ok::<AsyncLoadHandle, AsyncLoadError>(AsyncLoadHandle { id: before.in_flight(key) })
            &&& after.same_state(&before)
            &&& after.backend() == before.backend()
        } else if before.last_handle() == u32::MAX {
            &&& r == Err::<AsyncLoadHandle, AsyncLoadError>(AsyncLoadError::HandlesExhausted)
            &&& after.same_state(&before)
            &&& after.backend() == before.backend()
        } else {
            let id = (before.last_handle() + 1) as u32;
            &&& after.wf() == before.wf()
            &&& after.last_handle() == id
            &&& after.same_caches(&before)
            &&& after.same_logs(&before)
            &&& after.sent() == before.sent().push((AsyncLoadHandle { id }, kind, key, 0u32, 0u32, 0u32))
            &&& match r {
                Ok(h) => {
                    &&& h.id == id
                    &&& after.requests() == before.requests().insert(key, id)
                },
                Err(e) => {
                    &&& e == AsyncLoadError::FailedToCommunicateWithResourceThread
                    &&& after.requests() == before.requests()
                },
            }
        }
    }

    /// Taking in the worker's answer `p`, from `before` to `after`, handing on
    /// `r`: the request for its key is no longer out. Where the key is
    /// resident, the resident texture is handed on, whatever the answer, and
    /// the worker's copy, if it is another texture, released. Else a failure
    /// (texture 0) is handed on as it is, and a texture becomes resident and
    /// is handed on.
    pub open spec fn accept_step(before: Self, p: PayloadView, r: (Seq<char>, PayloadView), after: Self) -> bool {
        let key = p.2;
        &&& after.wf() == before.wf()
        &&& r.0 == key
        &&& after.requests() == before.requests().insert(key, 0)
        &&& after.last_handle() == before.last_handle()
        &&& after.sent() == before.sent()
        &&& after.texts() == before.texts()
        &&& after.audio() == before.audio()
        &&& after.decoded() == before.decoded()
        &&& after.rendered() == before.rendered()
        &&& after.audio_read() == before.audio_read()
        &&& after.fonts() == before.fonts()
        &&& after.fonts_read() == before.fonts_read()
        &&& if before.textures().contains_key(key) {
            let t = before.textures()[key];
            &&& r.1 == (p.0, p.1, p.2, t.texture_id, t.width, t.height)
            &&& after.textures() == before.textures()
            &&& after.released() == if p.3 != 0 && p.3 != t.texture_id {
                before.released().push(p.3)
            } else {
                before.released()
            }
        } else if p.3 == 0 {
            &&& r.1 == p
            &&& after.textures() == before.textures()
            &&& after.released() == before.released()
        } else {
            &&& r.1 == p
            &&& after.textures() == before.textures().insert(
                key,
                Texture { texture_id: p.3, width: p.4, height: p.5 },
            )
            &&& after.released() == before.released()
        }
    }

    /// Rasterising `info`, from `before` to `after` with result `r`: text
    /// already rasterised with that font and size is returned as it is. Else
    /// the font file is read through the backend, once per path, and kept;
    /// where it could not be read, `r` is an error and nothing else changes.
    /// With the font at hand, `info` and the font's bytes are handed to the
    /// backend once, and a texture it gives (never texture 0) is kept.
    pub open spec fn text_load_step(before: Self, info: TextKey, r: Result<Texture, LoadError>, after: Self) -> bool {
        let path = info.1;
        if before.texts().contains_key(info) {
            &&& r == Ok::<Texture, LoadError>(before.texts()[info])
            &&& after.same_state(&before)
            &&& after.backend() == before.backend()
        } else {
            &&& after.wf() == before.wf()
            &&& after.fonts_read() == if before.fonts().contains_key(path) {
                before.fonts_read()
            } else {
                before.fonts_read().push(path)
            }
            &&& before.fonts().contains_key(path) ==> after.fonts() == before.fonts()
            &&& if after.fonts().contains_key(path) {
                &&& after.fonts() == before.fonts().insert(path, after.fonts()[path])
                &&& after.rendered() == before.rendered().push((info, after.fonts()[path]@))
                &&& r is Ok ==> r->Ok_0.texture_id != 0
                &&& after.texts() == match r {
                    Ok(t) => before.texts().insert(info, t),
                    Err(_) => before.texts(),
                }
            } else {
                &&& r is Err
                &&& after.fonts() == before.fonts()
                &&& after.rendered() == before.rendered()
                &&& after.texts() == before.texts()
            }
            &&& after.textures() == before.textures()
            &&& after.audio() == before.audio()
            &&& after.same_requests(&before)
            &&& after.decoded() == before.decoded()
            &&& after.audio_read() == before.audio_read()
            &&& after.released() == before.released()
        }
    }

    /// Loading the sound at `path`, from `before` to `after` with result `r`:
    /// a loaded buffer is returned as it is; else the path is handed to the
    /// backend once, and a buffer it gives is kept.
    pub open spec fn audio_load_step(before: Self, path: Seq<char>, r: Result<u32, LoadError>, after: Self) -> bool {
        if before.audio().contains_key(path) {
            &&& r == Ok::<u32, LoadError>(before.audio()[path])
            &&& after.same_state(&before)
            &&& after.backend() == before.backend()
        } else {
            &&& after.wf() == before.wf()
            &&& after.audio_read() == before.audio_read().push(path)
            &&& after.audio() == match r {
                Ok(id) => before.audio().insert(path, id),
                Err(_) => before.audio(),
            }
            &&& after.textures() == before.textures()
            &&& after.texts() == before.texts()
            &&& after.same_requests(&before)
            &&& after.decoded() == before.decoded()
            &&& after.rendered() == before.rendered()
            &&& after.fonts() == before.fonts()
            &&& after.fonts_read() == before.fonts_read()
            &&& after.released() == before.released()
        }
    }

    /// Returns the buffer of the sound at `path`, loading it through the
    /// backend only the first time; players share the buffer.
    pub fn load_audio_data(&mut self, path: &str) -> (r: Result<u32, LoadError>)
        requires
            old(self).wf(),
        ensures
            final(self).wf(),
            Self::audio_load_step(*old(self), path@, r, *final(self)),
    {
        let key = path.to_owned();
        match self.audio_data.get(&key) {
            Some(id) => Ok(id),
            None => {
                let r = self.backend.load_audio_data(path);
                proof {
                    self.audio_read = Ghost(self.audio_read@.push(path@));
                }
                match r {
                    Ok(id) => {
                        self.audio_data.insert(key, id);
                        Ok(id)
                    },
                    Err(e) => Err(e),
                }
            },
        }
    }

    /// Returns the texture of the image at `path`, decoding and uploading it
    /// through the backend only where it is not resident yet.
    pub fn load_image_from_disk(&mut self, path: &str) -> (r: Result<Texture, LoadError>)
        requires
            old(self).wf(),
        ensures
            final(self).wf(),
            Self::disk_load_step(*old(self), path@, r, *final(self)),
    {
        let key = path.to_owned();
        match self.texture_data.get(&key) {
            Some(t) => Ok(t),
            None => {
                let b = self.backend.load_image_from_disk(path);
                proof {
                    self.decoded = Ghost(self.decoded@.push(path@));
                }
                let r = check_texture(b);
                if let Ok(t) = r {
                    self.texture_data.insert(key, t);
                }
                r
            },
        }
    }

    fn request_async(&mut self, key: &str, kind: ImageLoadPayloadType) -> (r: Result<
        AsyncLoadHandle,
        AsyncLoadError,
    >)
        requires
            old(self).wf(),
        ensures
            final(self).wf(),
            Self::async_request_step(*old(self), key@, kind, r, *final(self)),
    {
        let k = key.to_owned();
        if let Some(t) = self.texture_data.get(&k) {
            return Err(AsyncLoadError::ResourceAlreadyExists(t.texture_id));
        }
        if let Some(id) = self.loading.get(&k) {
            if id != 0 {
                return Ok(AsyncLoadHandle { id });
            }
        }
        if self.base_handle.id == u32::MAX {
            return Err(AsyncLoadError::HandlesExhausted);
        }
        self.base_handle.id = self.base_handle.id + 1;
        let handle = self.base_handle;
        let job = ImageLoadPayload {
            handle,
            image_type: kind,
            path: key.to_owned(),
            texture_id: 0,
            width: 0,
            height: 0,
        };
        proof {
            self.sent = Ghost(self.sent@.push(job@));
        }
        if self.backend.send(job) {
            self.loading.insert(k, handle.id);
            Ok(handle)
        } else {
            Err(AsyncLoadError::FailedToCommunicateWithResourceThread)
        }
    }

    /// Asks the load worker for the image file at `path`. A resident image
    /// gives `ResourceAlreadyExists`; a request already out gives its handle.
    pub fn load_image_from_disk_async(&mut self, path: &str) -> (r: Result<AsyncLoadHandle, AsyncLoadError>)
        requires
            old(self).wf(),
        ensures
            final(self).wf(),
            Self::async_request_step(*old(self), path@, ImageLoadPayloadType::Disk, r, *final(self)),
    {
        self.request_async(path, ImageLoadPayloadType::Disk)
    }

    /// Asks the load worker for the image at `url`. A resident image gives
    /// `ResourceAlreadyExists`; a request already out gives its handle.
    pub fn load_image_from_url_async(&mut self, url: &str) -> (r: Result<AsyncLoadHandle, AsyncLoadError>)
        requires
            old(self).wf(),
        ensures
            final(self).wf(),
            Self::async_request_step(*old(self), url@, ImageLoadPayloadType::Remote, r, *final(self)),
    {
        self.request_async(url, ImageLoadPayloadType::Remote)
    }

    /// Releases every resident texture and then every rasterised text through
    /// the backend, each once, in the release orders, then forgets them all,
    /// as the loader does when it goes away.
    pub fn release_all(&mut self)
        requires
            old(self).wf(),
        ensures
            final(self).wf(),
            final(self).textures() == Map::<Seq<char>, Texture>::empty(),
            final(self).texts() == Map::<TextKey, Texture>::empty(),
            final(self).audio() == old(self).audio(),
            final(self).fonts() == old(self).fonts(),
            final(self).fonts_read() == old(self).fonts_read(),
            final(self).same_requests(old(self)),
            final(self).decoded() == old(self).decoded(),
            final(self).rendered() == old(self).rendered(),
            final(self).audio_read() == old(self).audio_read(),
            final(self).released() == old(self).released() + old(self).texture_order().map_values(
                |t: Texture| t.texture_id,
            ) + old(self).text_order().map_values(|t: Texture| t.texture_id),
    {
        let ghost start = self.released@;
        let ghost tex_ids = old(self).texture_order().map_values(|t: Texture| t.texture_id);
        let ghost text_ids = old(self).text_order().map_values(|t: Texture| t.texture_id);
        let n = self.texture_data.len();
        let mut i: usize = 0;
        while i < n
            invariant
                self.wf(),
                i <= n,
                n == self.texture_data.value_seq().len(),
                self.texture_data == old(self).texture_data,
                self.text_data == old(self).text_data,
                self.audio_data == old(self).audio_data,
                self.font_data == old(self).font_data,
                self.fonts_read == old(self).fonts_read,
                self.loading == old(self).loading,
                self.base_handle == old(self).base_handle,
                self.decoded == old(self).decoded,
                self.rendered == old(self).rendered,
                self.audio_read == old(self).audio_read,
                self.sent == old(self).sent,
                start == old(self).released(),
                tex_ids == old(self).texture_order().map_values(|t: Texture| t.texture_id),
                self.released@ == start + tex_ids.subrange(0, i as int),
            decreases n - i,
        {
            let t = self.texture_data.value_at(i);
            self.backend.release_texture(t.texture_id);
            proof {
                self.released = Ghost(self.released@.push(t.texture_id));
                assert(self.released@ =~= start + tex_ids.subrange(0, i + 1));
            }
            i += 1;
        }
        proof {
            assert(tex_ids.subrange(0, n as int) =~= tex_ids);
        }
        let m = self.text_data.len();
        let mut j: usize = 0;
        while j < m
            invariant
                self.wf(),
                j <= m,
                m == self.text_data.value_seq().len(),
                self.texture_data == old(self).texture_data,
                self.text_data == old(self).text_data,
                self.audio_data == old(self).audio_data,
                self.font_data == old(self).font_data,
                self.fonts_read == old(self).fonts_read,
                self.loading == old(self).loading,
                self.base_handle == old(self).base_handle,
                self.decoded == old(self).decoded,
                self.rendered == old(self).rendered,
                self.audio_read == old(self).audio_read,
                self.sent == old(self).sent,
                text_ids == old(self).text_order().map_values(|t: Texture| t.texture_id),
                self.released@ == start + tex_ids + text_ids.subrange(0, j as int),
            decreases m - j,
        {
            let t = self.text_data.value_at(j);
            self.backend.release_texture(t.texture_id);
            proof {
                self.released = Ghost(self.released@.push(t.texture_id));
                assert(self.released@ =~= start + tex_ids + text_ids.subrange(0, j + 1));
            }
            j += 1;
        }
        proof {
            assert(text_ids.subrange(0, m as int) =~= text_ids);
        }
        self.texture_data.clear();
        self.text_data.clear();
    }

    /// Takes in one answer of the load worker and returns its key and the
    /// completion to hand on.
    pub fn accept_load_event(&mut self, p: ImageLoadPayload) -> (r: (String, ImageLoadPayload))
        requires
            old(self).wf(),
        ensures
            final(self).wf(),
            Self::accept_step(*old(self), p@, (r.0@, r.1@), *final(self)),
    {
        let key = p.path.clone();
        self.loading.insert(p.path.clone(), 0);
        match self.texture_data.get(&key) {
            Some(t) => {
                if p.texture_id != 0 && p.texture_id != t.texture_id {
                    self.backend.release_texture(p.texture_id);
                    proof {
                        self.released = Ghost(self.released@.push(p.texture_id));
                    }
                }
                let out = ImageLoadPayload {
                    handle: p.handle,
                    image_type: p.image_type,
                    path: p.path,
                    texture_id: t.texture_id,
                    width: t.width,
                    height: t.height,
                };
                (key, out)
            },
            None => {
                if p.texture_id != 0 {
                    self.texture_data.insert(
                        key.clone(),
                        Texture { texture_id: p.texture_id, width: p.width, height: p.height },
                    );
                }
                (key, p)
            },
        }
    }

    /// Takes in the next answer of the load worker, if one is waiting, and
    /// returns its key and the completion to hand on. Call it until it gives
    /// `None`.
    pub fn recv_load_events(&mut self) -> (r: Option<(String, ImageLoadPayload)>)
        requires
            old(self).wf(),
        ensures
            final(self).wf(),
            r is None ==> final(self).same_state(old(self)),
            r is Some ==> exists|p: PayloadView|
                #[trigger] Self::accept_step(*old(self), p, (r->Some_0.0@, r->Some_0.1@), *final(self)),
    {
        match self.backend.try_recv() {
            Some(p) => {
                let ghost pv = p@;
                let r = self.accept_load_event(p);
                proof {
                    assert(Self::accept_step(*old(self), pv, (r.0@, r.1@), *self));
                }
                let out = Some(r);
                proof {
                    assert(Self::accept_step(*old(self), pv, (out->Some_0.0@, out->Some_0.1@), *final(self)));
                }
                out
            },
            None => None,
        }
    }

    /// Returns the texture of `info`'s text, rasterising it through the
    /// backend only where that text, font and size have not been seen yet.
    pub fn load_text_texture(&mut self, info: &TextLoadInfo) -> (r: Result<Texture, LoadError>)
        requires
            old(self).wf(),
        ensures
            final(self).wf(),
            Self::text_load_step(*old(self), info@, r, *final(self)),
    {
        if let Some(t) = self.text_data.get(info) {
            return Ok(t);
        }
        let path = info.font_path.clone();
        if !self.font_data.contains(&path) {
            let read = self.backend.read_font(&info.font_path);
            proof {
                self.fonts_read = Ghost(self.fonts_read@.push(info.font_path@));
            }
            match read {
                Ok(bytes) => {
                    self.font_data.insert(path.clone(), bytes);
                },
                Err(e) => {
                    return Err(e);
                },
            }
        }
        proof {
            assert(self.font_data@ =~= old(self).font_data@.insert(path@, self.font_data@[path@]));
        }
        let b = match self.font_data.get_ref(&path) {
            Some(font) => {
                let b = self.backend.render_text_to_texture(info, font);
                proof {
                    self.rendered = Ghost(self.rendered@.push((info@, font@)));
                }
                b
            },
            None => {
                return Err(LoadError::RenderError(path));
            },
        };
        let r = check_texture(b);
        if let Ok(t) = r {
            let k = TextLoadInfo {
                text: info.text.clone(),
                font_path: info.font_path.clone(),
                font_size: info.font_size,
            };
            self.text_data.insert(k, t);
        }
        r
    }
}

} // verus!

verus! {

/// Loading the same image twice gives the same texture both times, and the
/// backend decodes the file at most once: exactly once where it was not
/// resident before the first load.
pub proof fn lemma_disk_load_idempotent<B: LoaderBackend>(
    s0: Resources<B>,
    s1: Resources<B>,
    s2: Resources<B>,
    path: Seq<char>,
    r1: Result<Texture, LoadError>,
    r2: Result<Texture, LoadError>,
)
    requires
        Resources::disk_load_step(s0, path, r1, s1),
        Resources::disk_load_step(s1, path, r2, s2),
        r1 is Ok,
    ensures
        r2 == r1,
        s2.textures() == s1.textures(),
        s2.decoded() == if s0.textures().contains_key(path) {
            s0.decoded()
        } else {
            s0.decoded().push(path)
        },
{
}

/// Two asynchronous requests for one key, with no answer taken in between,
/// give the same handle, and the worker gets at most one job for them:
/// exactly one where no request for the key was out before.
pub proof fn lemma_requests_coalesce<B: LoaderBackend>(
    s0: Resources<B>,
    s1: Resources<B>,
    s2: Resources<B>,
    key: Seq<char>,
    kind1: ImageLoadPayloadType,
    kind2: ImageLoadPayloadType,
    r1: Result<AsyncLoadHandle, AsyncLoadError>,
    r2: Result<AsyncLoadHandle, AsyncLoadError>,
)
    requires
        Resources::async_request_step(s0, key, kind1, r1, s1),
        Resources::async_request_step(s1, key, kind2, r2, s2),
        r1 is Ok,
    ensures
        r2 == r1,
        s2.sent() == s1.sent(),
        s0.in_flight(key) == 0 ==> s1.sent() == s0.sent().push((r1->Ok_0, kind1, key, 0u32, 0u32, 0u32)),
        s0.in_flight(key) != 0 ==> s1.sent() == s0.sent(),
{
    if s0.in_flight(key) == 0 {
        assert(s1.requests() == s0.requests().insert(key, r1->Ok_0.id));
        assert(s1.in_flight(key) == r1->Ok_0.id);
    }
}

/// A synchronous load that finishes while an asynchronous request for the same
/// key is out: when the worker's answer comes, the key keeps the one resident
/// texture that the synchronous load returned, the answer hands on that
/// texture, the worker's copy is released where it is another, and no request
/// for the key is out any more.
pub proof fn lemma_sync_then_answer_converge<B: LoaderBackend>(
    s0: Resources<B>,
    s1: Resources<B>,
    s2: Resources<B>,
    s3: Resources<B>,
    key: Seq<char>,
    kind: ImageLoadPayloadType,
    r1: Result<AsyncLoadHandle, AsyncLoadError>,
    r2: Result<Texture, LoadError>,
    p: PayloadView,
    out: (Seq<char>, PayloadView),
)
    requires
        Resources::async_request_step(s0, key, kind, r1, s1),
        r1 is Ok,
        Resources::disk_load_step(s1, key, r2, s2),
        r2 is Ok,
        Resources::accept_step(s2, p, out, s3),
        p.2 == key,
        p.3 != 0,
    ensures
        s3.textures().contains_key(key),
        s3.textures()[key] == r2->Ok_0,
        s3.textures() == s2.textures(),
        out.1.3 == r2->Ok_0.texture_id,
        s3.released() == if p.3 != r2->Ok_0.texture_id {
            s2.released().push(p.3)
        } else {
            s2.released()
        },
        s3.in_flight(key) == 0,
{
}

/// An answer that comes before a synchronous load of the same key: the
/// synchronous load then returns the texture that the answer made resident,
/// without decoding again.
pub proof fn lemma_answer_then_sync_converge<B: LoaderBackend>(
    s0: Resources<B>,
    s1: Resources<B>,
    s2: Resources<B>,
    s3: Resources<B>,
    key: Seq<char>,
    kind: ImageLoadPayloadType,
    r1: Result<AsyncLoadHandle, AsyncLoadError>,
    p: PayloadView,
    out: (Seq<char>, PayloadView),
    r3: Result<Texture, LoadError>,
)
    requires
        Resources::async_request_step(s0, key, kind, r1, s1),
        r1 is Ok,
        Resources::accept_step(s1, p, out, s2),
        p.2 == key,
        p.3 != 0,
        Resources::disk_load_step(s2, key, r3, s3),
    ensures
        r3 == Ok::<Texture, LoadError>(Texture { texture_id: p.3, width: p.4, height: p.5 }),
        out.1 == p,
        s3.textures() == s2.textures(),
        s3.decoded() == s2.decoded(),
        s3.released() == s1.released(),
{
}

} // verus!
