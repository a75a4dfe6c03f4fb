use std::collections::VecDeque;

use omega::event::{completion_event, frame_events, Event, ImageLoadEventPayload, InputEvent};
use omega::resource::{
    AsyncLoadError, AsyncLoadHandle, ImageLoadPayload, ImageLoadPayloadType, LoadError, LoaderBackend, Resources,
    TextLoadInfo, Texture, DEFAULT_FONT_PATH, DEFAULT_FONT_SIZE,
};
use omega::util::{clamp, saturate_micros, Timer};

/// A backend that counts what it is asked to do.
#[derive(Default)]
struct Fake {
    decodes: Vec<String>,
    renders: Vec<String>,
    fonts_read: Vec<String>,
    released: Vec<u32>,
    audio_loads: Vec<String>,
    jobs: Vec<ImageLoadPayload>,
    answers: VecDeque<ImageLoadPayload>,
    next_texture: u32,
    worker_stopped: bool,
    fail_decode: bool,
}

impl LoaderBackend for Fake {
    fn load_image_from_disk(&mut self, path: &str) -> Result<Texture, LoadError> {
        self.decodes.push(path.to_string());
        if path.starts_with("missing") {
            return Err(LoadError::IOError(path.to_string()));
        }
        if self.fail_decode {
            return Err(LoadError::DecodeError("Bad Image".to_string()));
        }
        if path.starts_with("zero") {
            return Ok(Texture { texture_id: 0, width: 1, height: 1 });
        }
        self.next_texture += 1;
        Ok(Texture { texture_id: self.next_texture, width: 64, height: 32 })
    }

    fn read_font(&mut self, path: &str) -> Result<Vec<u8>, LoadError> {
        self.fonts_read.push(path.to_string());
        if path.starts_with("missing") {
            return Err(LoadError::IOError(path.to_string()));
        }
        Ok(path.as_bytes().to_vec())
    }

    fn render_text_to_texture(&mut self, info: &TextLoadInfo, font: &Vec<u8>) -> Result<Texture, LoadError> {
        assert_eq!(font, &info.font_path.as_bytes().to_vec());
        self.renders.push(info.text.clone());
        self.next_texture += 1;
        Ok(Texture { texture_id: self.next_texture, width: info.text.len() as u32, height: 10 })
    }

    fn load_audio_data(&mut self, path: &str) -> Result<u32, LoadError> {
        if path.ends_with(".wav") {
            self.audio_loads.push(path.to_string());
            Ok(self.audio_loads.len() as u32)
        } else {
            Err(LoadError::DecodeError("unreadable sound".to_string()))
        }
    }

    fn release_texture(&mut self, texture_id: u32) {
        self.released.push(texture_id);
    }

    fn send(&mut self, job: ImageLoadPayload) -> bool {
        if self.worker_stopped {
            return false;
        }
        self.jobs.push(job);
        true
    }

    fn try_recv(&mut self) -> Option<ImageLoadPayload> {
        self.answers.pop_front()
    }
}

fn answer(job: &ImageLoadPayload, texture_id: u32) -> ImageLoadPayload {
    ImageLoadPayload { texture_id, width: 8, height: 9, ..job.clone() }
}

#[test]
fn sync_load_twice_decodes_once() {
    let mut res = Resources::new(Fake::default());
    let a = res.load_image_from_disk("res/img/a.png").unwrap();
    let b = res.load_image_from_disk("res/img/a.png").unwrap();
    assert_eq!(a, b);
    assert_eq!(a, Texture { texture_id: 1, width: 64, height: 32 });
    assert_eq!(res.backend_mut().decodes, vec!["res/img/a.png"]);
    let c = res.load_image_from_disk("res/img/c.png").unwrap();
    assert_eq!(c.texture_id, 2);
    assert_eq!(res.backend_mut().decodes.len(), 2);
}

#[test]
fn failed_sync_load_is_not_cached() {
    let mut res = Resources::new(Fake { fail_decode: true, ..Fake::default() });
    assert_eq!(res.load_image_from_disk("bad.png"), Err(LoadError::DecodeError("Bad Image".to_string())));
    res.backend_mut().fail_decode = false;
    assert_eq!(res.load_image_from_disk("bad.png").unwrap().texture_id, 1);
    assert_eq!(res.backend_mut().decodes.len(), 2);
}

#[test]
fn async_requests_coalesce() {
    let mut res = Resources::new(Fake::default());
    let h1 = res.load_image_from_disk_async("res/img/m.png").unwrap();
    let h2 = res.load_image_from_disk_async("res/img/m.png").unwrap();
    assert_eq!(h1, h2);
    assert_eq!(h1, AsyncLoadHandle { id: 1 });
    assert_eq!(res.backend_mut().jobs.len(), 1);
    let job = &res.backend_mut().jobs[0];
    assert_eq!(job.path, "res/img/m.png");
    assert_eq!(job.image_type, ImageLoadPayloadType::Disk);
    assert_eq!(job.texture_id, 0);
    let h3 = res.load_image_from_url_async("http://example.com/t.jpg").unwrap();
    assert_eq!(h3.id, 2);
    assert_eq!(res.backend_mut().jobs[1].image_type, ImageLoadPayloadType::Remote);
}

#[test]
fn async_request_for_resident_image_needs_no_wait() {
    let mut res = Resources::new(Fake::default());
    let t = res.load_image_from_disk("res/img/a.png").unwrap();
    assert_eq!(
        res.load_image_from_disk_async("res/img/a.png"),
        Err(AsyncLoadError::ResourceAlreadyExists(t.texture_id))
    );
    assert!(res.backend_mut().jobs.is_empty());
}

#[test]
fn async_request_fails_when_worker_stopped() {
    let mut res = Resources::new(Fake { worker_stopped: true, ..Fake::default() });
    assert_eq!(
        res.load_image_from_url_async("http://x/y.png"),
        Err(AsyncLoadError::FailedToCommunicateWithResourceThread)
    );
    res.backend_mut().worker_stopped = false;
    let h = res.load_image_from_url_async("http://x/y.png").unwrap();
    assert_eq!(h.id, 2);
    assert_eq!(res.backend_mut().jobs.len(), 1);
}

#[test]
fn completion_makes_texture_resident() {
    let mut res = Resources::new(Fake::default());
    assert!(res.recv_load_events().is_none());
    let h = res.load_image_from_disk_async("p.png").unwrap();
    let job = res.backend_mut().jobs[0].clone();
    res.backend_mut().answers.push_back(answer(&job, 77));
    let (key, done) = res.recv_load_events().unwrap();
    assert_eq!(key, "p.png");
    assert_eq!(done.handle, h);
    assert_eq!(done.texture_id, 77);
    assert!(res.recv_load_events().is_none());
    assert_eq!(res.load_image_from_disk("p.png").unwrap(), Texture { texture_id: 77, width: 8, height: 9 });
    assert!(res.backend_mut().decodes.is_empty());
    assert_eq!(
        completion_event(&done),
        Event::ImageLoadEvent(ImageLoadEventPayload { handle: h, texture_id: 77, width: 8, height: 9 })
    );
}

#[test]
fn sync_load_racing_async_converges_on_one_texture() {
    let mut res = Resources::new(Fake::default());
    let h = res.load_image_from_disk_async("race.png").unwrap();
    let sync = res.load_image_from_disk("race.png").unwrap();
    let job = res.backend_mut().jobs[0].clone();
    res.backend_mut().answers.push_back(answer(&job, 500));
    let (_, done) = res.recv_load_events().unwrap();
    assert_eq!(done.handle, h);
    assert_eq!(done.texture_id, sync.texture_id);
    assert_eq!((done.width, done.height), (sync.width, sync.height));
    assert_eq!(res.backend_mut().released, vec![500]);
    assert_eq!(res.load_image_from_disk("race.png").unwrap(), sync);
    assert_eq!(
        res.load_image_from_disk_async("race.png"),
        Err(AsyncLoadError::ResourceAlreadyExists(sync.texture_id))
    );
}

#[test]
fn failed_completion_is_delivered_and_clears_request() {
    let mut res = Resources::new(Fake::default());
    let h = res.load_image_from_url_async("http://x/broken.png").unwrap();
    let job = res.backend_mut().jobs[0].clone();
    res.backend_mut().answers.push_back(answer(&job, 0));
    let (_, done) = res.recv_load_events().unwrap();
    assert_eq!(completion_event(&done), Event::ImageLoadFailed(h));
    let again = res.load_image_from_url_async("http://x/broken.png").unwrap();
    assert_eq!(again.id, h.id + 1);
    assert_eq!(res.backend_mut().jobs.len(), 2);
}

#[test]
fn text_cache_is_keyed_by_text_font_and_size() {
    let mut res = Resources::new(Fake::default());
    let info = TextLoadInfo { text: "Omega".to_string(), ..TextLoadInfo::default() };
    let a = res.load_text_texture(&info).unwrap();
    let b = res.load_text_texture(&info).unwrap();
    assert_eq!(a, b);
    let bigger = TextLoadInfo { font_size: 72, ..info.clone() };
    let c = res.load_text_texture(&bigger).unwrap();
    assert_ne!(a.texture_id, c.texture_id);
    assert_eq!(res.backend_mut().renders.len(), 2);
}

#[test]
fn text_load_info_default() {
    let d = TextLoadInfo::default();
    assert_eq!(d.text, "");
    assert_eq!(d.font_path, DEFAULT_FONT_PATH);
    assert_eq!(d.font_path, "res/font/default.otf");
    assert_eq!(d.font_size, DEFAULT_FONT_SIZE);
    assert_eq!(d.font_size, 36);
    assert_eq!(AsyncLoadHandle::default().id, 0);
    assert_eq!(ImageLoadPayloadType::default(), ImageLoadPayloadType::Remote);
    assert_eq!(Texture::default(), Texture { texture_id: 0, width: 0, height: 0 });
}

#[test]
fn frame_events_keep_their_order() {
    let done = ImageLoadPayload {
        handle: AsyncLoadHandle { id: 3 },
        image_type: ImageLoadPayloadType::Disk,
        path: "a".to_string(),
        texture_id: 4,
        width: 5,
        height: 6,
    };
    let failed = ImageLoadPayload { texture_id: 0, handle: AsyncLoadHandle { id: 9 }, ..done.clone() };
    let events = frame_events(
        &vec![Event::WindowUpdated(800, 600)],
        &vec![done, failed],
        &vec![InputEvent::MouseMoved(1, 2), InputEvent::Closed],
    );
    assert_eq!(
        events,
        vec![
            Event::WindowUpdated(800, 600),
            Event::Input(InputEvent::MouseMoved(1, 2)),
            Event::Input(InputEvent::Closed),
            Event::ImageLoadEvent(ImageLoadEventPayload {
                handle: AsyncLoadHandle { id: 3 },
                texture_id: 4,
                width: 5,
                height: 6
            }),
            Event::ImageLoadFailed(AsyncLoadHandle { id: 9 }),
        ]
    );
}

#[test]
fn clamp_limits_to_range() {
    assert_eq!(clamp(300, 0, 255), 255);
    assert_eq!(clamp(-4, 0, 255), 0);
    assert_eq!(clamp(17, 0, 255), 17);
    assert_eq!(clamp(0, 0, 255), 0);
    assert_eq!(clamp(255, 0, 255), 255);
}

#[test]
fn timer_measures_forward() {
    let mut t = Timer::new();
    let a = t.dt();
    let start = std::time::Instant::now();
    while start.elapsed() < std::time::Duration::from_millis(2) {}
    let b = t.dt();
    assert!(b >= 2000);
    assert!(a < 1_000_000);
}

#[test]
fn release_all_frees_every_texture() {
    let mut res = Resources::new(Fake::default());
    let a = res.load_image_from_disk("a.png").unwrap();
    let t = res.load_text_texture(&TextLoadInfo { text: "hi".to_string(), ..TextLoadInfo::default() }).unwrap();
    res.release_all();
    let mut freed = res.backend_mut().released.clone();
    freed.sort();
    assert_eq!(freed, vec![a.texture_id, t.texture_id]);
    let again = res.load_image_from_disk("a.png").unwrap();
    assert_ne!(again.texture_id, a.texture_id);
}

#[test]
fn audio_buffers_are_loaded_once_and_shared() {
    let mut res = Resources::new(Fake::default());
    let a = res.load_audio_data("res/snd/beep.wav").unwrap();
    let b = res.load_audio_data("res/snd/beep.wav").unwrap();
    let c = res.load_audio_data("res/snd/zombie.wav").unwrap();
    assert_eq!(a, b);
    assert_ne!(a, c);
    assert_eq!(res.backend_mut().audio_loads.len(), 2);
    assert!(res.load_audio_data("res/snd/missing.ogg").is_err());
}

#[test]
fn load_errors_are_told_apart() {
    let mut res = Resources::new(Fake::default());
    assert_eq!(res.load_image_from_disk("missing.png"), Err(LoadError::IOError("missing.png".to_string())));
    assert_eq!(res.load_image_from_disk("zero.png"), Err(LoadError::EmptyTexture));
    assert_eq!(
        res.load_image_from_disk_async("zero.png").map(|h| h.id),
        Ok(1),
        "texture 0 is never resident"
    );
}

#[test]
fn failed_answer_for_resident_key_hands_on_resident_texture() {
    let mut res = Resources::new(Fake::default());
    let h = res.load_image_from_disk_async("late.png").unwrap();
    let sync = res.load_image_from_disk("late.png").unwrap();
    let job = res.backend_mut().jobs[0].clone();
    res.backend_mut().answers.push_back(answer(&job, 0));
    let (_, done) = res.recv_load_events().unwrap();
    assert_eq!(done.handle, h);
    assert_eq!(done.texture_id, sync.texture_id);
    assert!(res.backend_mut().released.is_empty());
    assert_eq!(
        completion_event(&done),
        Event::ImageLoadEvent(ImageLoadEventPayload {
            handle: h,
            texture_id: sync.texture_id,
            width: sync.width,
            height: sync.height
        })
    );
}

#[test]
fn timer_saturates_microseconds() {
    assert_eq!(saturate_micros(5), 5);
    assert_eq!(saturate_micros(u64::MAX as u128), u64::MAX);
    assert_eq!(saturate_micros(u64::MAX as u128 + 1), u64::MAX);
}

#[test]
fn release_all_frees_in_release_order() {
    let mut res = Resources::new(Fake::default());
    let a = res.load_image_from_disk("a.png").unwrap();
    let b = res.load_image_from_disk("b.png").unwrap();
    let t = res.load_text_texture(&TextLoadInfo::default()).unwrap();
    res.release_all();
    assert_eq!(res.backend_mut().released, vec![a.texture_id, b.texture_id, t.texture_id]);
}

#[test]
fn fonts_are_read_once_per_path() {
    let mut res = Resources::new(Fake::default());
    let a = TextLoadInfo { text: "a".to_string(), ..TextLoadInfo::default() };
    let b = TextLoadInfo { text: "b".to_string(), ..TextLoadInfo::default() };
    res.load_text_texture(&a).unwrap();
    res.load_text_texture(&b).unwrap();
    assert_eq!(res.backend_mut().fonts_read, vec![DEFAULT_FONT_PATH.to_string()]);
    assert_eq!(res.backend_mut().renders, vec!["a".to_string(), "b".to_string()]);
    let missing = TextLoadInfo { font_path: "missing.otf".to_string(), ..a.clone() };
    assert_eq!(res.load_text_texture(&missing), Err(LoadError::IOError("missing.otf".to_string())));
    assert_eq!(res.backend_mut().renders.len(), 2);
}
