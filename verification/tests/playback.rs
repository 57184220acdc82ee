use yunyin::bgm;
use yunyin::bgm::Player;
use yunyin::deck;
use yunyin::deck::AppEvent;
use yunyin::deck::Deck;
use yunyin::deck::Decoding;
use yunyin::deck::Play;
use yunyin::deck::StartAction;
use yunyin::deck::StartEvent;
use yunyin::deck::Watchdog;
use yunyin::decoder;
use yunyin::platform::power;
use yunyin::pump;
use yunyin::pump::Opened;
use yunyin::pump::Pump;
use yunyin::pump::Tail;
use yunyin::pump::Turn;

fn playing(path: &str) -> Player {
    let mut p = Player::new();
    assert_eq!(p.play(path), Some(false));
    assert_eq!(p.finish_end(), None);
    assert_eq!(p.opened(path, Some((48000, 9000))), Some(48000));
    assert!(p.port_opened(3, 48000));
    p
}

#[test]
fn decoders_answer_in_bounds() {
    assert_eq!(decoder::rate(None), 44100);
    assert_eq!(decoder::rate(Some(0)), 1);
    assert_eq!(decoder::rate(Some(8000)), 8000);
    assert_eq!(decoder::position(Some(-4)), 0);
    assert_eq!(decoder::length(None), 0);
    assert_eq!(decoder::duration_ms(Some(44100 * 3), Some(44100)), 3000);
    assert_eq!(decoder::position_ms(Some(100), Some(48000)), 2);
    assert_eq!(decoder::to_ms(5, 0), 5000);
    assert_eq!(decoder::to_ms(4294968, 1), 704);
    assert_eq!(decoder::decode_request(0, 960), None);
    assert_eq!(decoder::decode_request(10, 0), None);
    assert_eq!(decoder::decode_request(10, 960), Some(960));
}

#[test]
fn a_player_plays_and_ends() {
    let mut p = playing("a.mp3");
    assert!(p.session_active() && p.thread_goes_on() && power::ticks(&p));
    assert_eq!(p.output_port(), Some(3));
    assert!(p.wants_samples(true) && !p.wants_samples(false));
    let mut buf = [1i16; 8];
    p.audio_decode(&mut buf, 4, true, 3, 500);
    assert_eq!(buf, [1, 1, 1, 1, 1, 1, 0, 0]);
    assert_eq!(
        p.state_json(),
        "{\"playing\":true,\"paused\":false,\"path\":\"a.mp3\",\"pos\":500,\"dur\":9000,\"rate\":48000,\"dec\":\"bgm\"}"
    );
    p.audio_decode(&mut buf, 4, true, 0, 777);
    assert_eq!(buf, [0; 8]);
    assert_eq!(
        p.state_json(),
        "{\"playing\":false,\"paused\":false,\"path\":\"a.mp3\",\"pos\":9000,\"dur\":9000,\"rate\":48000,\"dec\":\"bgm\"}"
    );
}

#[test]
fn waiting_for_data_is_silence() {
    let mut p = playing("http://a");
    let before = p.state_json();
    let mut buf = [9i16; 6];
    p.audio_decode(&mut buf, 3, false, 0, 0);
    assert_eq!(buf, [0; 6]);
    assert_eq!(p.state_json(), before);
}

#[test]
fn pausing_and_resuming_keeps_the_place() {
    let mut p = playing("a");
    let mut buf = [1i16; 4];
    p.audio_decode(&mut buf, 2, true, 2, 1234);
    p.pause();
    let mut quiet = [5i16; 4];
    p.audio_decode(&mut quiet, 2, true, 2, 9999);
    assert_eq!(quiet, [0; 4]);
    assert!(p.state_json().contains("\"playing\":false,\"paused\":true,\"path\":\"a\",\"pos\":1234"));
    assert_eq!(p.resume("a"), bgm::Resume::Continued);
    assert!(p.state_json().contains("\"playing\":true,\"paused\":false,\"path\":\"a\",\"pos\":1234"));
    assert_eq!(p.resume("a"), bgm::Resume::Restart);
    assert_eq!(p.resume(""), bgm::Resume::Nothing);
}

#[test]
fn stopping_takes_the_session_down() {
    let mut p = playing("a");
    assert!(p.stop());
    assert!(!p.thread_goes_on());
    assert_eq!(p.output_port(), None);
    assert_eq!(p.finish_end(), Some(3));
    p.stopped();
    assert!(!p.session_active());
    assert_eq!(p.finish_end(), None);
    assert!(p.state_json().contains("\"pos\":0"));
    assert!(!p.stop());
}

#[test]
fn playing_can_fail() {
    let mut p = Player::new();
    assert_eq!(p.play(""), None);
    assert_eq!(p.play_url(""), None);
    assert_eq!(p.play_url("http://a"), Some(false));
    assert_eq!(p.opened("http://a", None), None);
    assert!(p.state_json().contains("\"playing\":false"));
    assert_eq!(p.opened("http://a", Some((44100, 5))), Some(44100));
    assert!(!p.port_opened(-7, 44100));
    assert!(p.state_json().contains("\"playing\":false") && !p.thread_goes_on());
    let mut q = playing("b");
    assert_eq!(q.thread_failed(), 3);
    assert!(!q.session_active() && q.finish_end().is_none());
    assert!(q.acquire_on_start());
    assert!(!q.acquire_on_start());
}

#[test]
fn resampling_takes_the_nearest_earlier_frame() {
    assert_eq!(pump::resample_stereo(&[1, 2, 3, 4], 44100, 2), vec![1, 2, 3, 4]);
    assert_eq!(pump::resample_stereo(&[], 8000, 1), Vec::<i16>::new());
    assert_eq!(pump::resample_stereo(&[1, 2], 22050, 1), vec![1, 1, 1, 1, 2, 2, 2, 2]);
    assert_eq!(pump::resample_stereo(&[1, 2, 3, 4], 88200, 2), vec![1, 2]);
    assert_eq!(pump::resample_stereo(&[5, 6], 44100, 1), vec![5, 5, 6, 6]);
    assert_eq!(pump::resample_stereo(&[7], 48000, 2), Vec::<i16>::new());
}

#[test]
fn the_pump_fills_the_ring() {
    let mut d = Deck::new();
    let mut p = Pump::pump_stream(&mut d, "a.flac", Some(Opened { rate: 44100, frames: 88200 }), 32768).unwrap();
    assert!(d.state_json().contains("\"playing\":true,\"paused\":false,\"path\":\"\",\"pos\":0,\"dur\":2000,\"rate\":44100,\"dec\":\"sw\""));
    assert_eq!(p.turn(&d, 32768), Turn::Decode(1024));
    let buf = vec![3i16; 2048];
    assert!(p.can_take(1024, buf.len()) && p.can_take(-1, 0));
    assert!(!p.can_take(1025, buf.len()) && !p.can_take(1, 1));
    assert_eq!(p.decoded(1024, &buf).unwrap(), buf);
    p.report(&mut d, 32768 - 1024);
    assert!(d.state_json().contains("\"pos\":0,"));
    assert_eq!(p.heard(32768 - 24), 1000);
    p.report(&mut d, 32768);
    assert!(d.state_json().contains("\"pos\":23,"));
    assert_eq!(p.turn(&d, 1023), Turn::Full);
    assert!(p.decoded(0, &buf).is_none());
    assert!(Pump::pump_stream(&mut d, "a\0", Some(Opened { rate: 1, frames: 1 }), 0).is_none());
    assert!(d.state_json().contains("\"playing\":false"));
    assert!(Pump::pump_stream(&mut d, "a", None, 0).is_none());
}

#[test]
fn a_pause_goes_back_to_what_was_heard() {
    let mut d = Deck::new();
    let mut p = Pump::pump_stream(&mut d, "a", Some(Opened { rate: 1000, frames: 100000 }), 4096).unwrap();
    let buf = vec![0i16; 2048];
    for _ in 0..2 {
        p.decoded(1024, &buf).unwrap();
    }
    assert!(!d.pause());
    assert_eq!(p.turn(&d, 4096 - 500), Turn::Hold(Some(1548)));
    p.hold(&mut d, Some(1548));
    assert!(d.state_json().contains("\"playing\":false,\"paused\":true,\"path\":\"\",\"pos\":1548,"));
    assert_eq!(p.turn(&d, 4096), Turn::Rest);
    d.spawn_ready("a");
    assert_eq!(d.resume(""), deck::Resume::Continued);
    assert_eq!(p.turn(&d, 4096), Turn::Decode(1024));
    d.spawn_begin();
    assert_eq!(p.turn(&d, 4096), Turn::Leave);
}

#[test]
fn the_tail_runs_dry() {
    let mut d = Deck::new();
    let mut p = Pump::pump_stream(&mut d, "a", Some(Opened { rate: 1000, frames: 5000 }), 4096).unwrap();
    assert_eq!(p.tail(&d, 4096 - 257), Tail::Wait);
    assert_eq!(p.tail(&d, 4096 - 256), Tail::Over);
    let _ = d.pause();
    assert_eq!(p.tail(&d, 0), Tail::Rest);
    p.finish(&mut d, true);
    assert!(d.state_json().contains("\"pos\":0,"));
    let mut d = Deck::new();
    let mut p = Pump::pump_stream(&mut d, "a", Some(Opened { rate: 1000, frames: 5000 }), 4096).unwrap();
    for _ in 0..400 {
        assert_eq!(p.tail(&d, 0), Tail::Wait);
    }
    assert_eq!(p.tail(&d, 0), Tail::Over);
    p.finish(&mut d, true);
    assert!(d.state_json().contains("\"playing\":false,\"paused\":false,\"path\":\"\",\"pos\":5000,"));
}

fn status(state: u32, time: u32) -> Vec<u8> {
    let mut b = vec![0u8; deck::STATUS_BYTES];
    b[0x10..0x14].copy_from_slice(&state.to_le_bytes());
    b[0x2C..0x30].copy_from_slice(&time.to_le_bytes());
    b
}

fn shell_playing(dur: u32) -> Deck {
    let mut d = Deck::new();
    assert_eq!(d.shell_audio_start(StartEvent::Begin), StartAction::Greet);
    let hello = StartEvent::Service { found: true, ret: 0, t1: 5, t2: 8 };
    assert_eq!(d.shell_audio_start(hello), StartAction::AskPort);
    assert_eq!(d.shell_ctx(), Some((5, 8)));
    assert_eq!(d.shell_audio_start(StartEvent::PortAsked), StartAction::Open);
    assert_eq!(d.shell_audio_start(StartEvent::Track(0)), StartAction::AskDuration);
    assert_eq!(d.shell_audio_start(StartEvent::Duration(dur)), StartAction::Play);
    assert_eq!(d.shell_audio_start(StartEvent::Polled), StartAction::Done);
    d.set_path("a.mp3");
    d
}

#[test]
fn the_shell_knows_some_formats() {
    for good in ["a.mp3", "a.M4A", "x.aac", "x.at9", "x.WaV"] {
        assert!(deck::shell_audio_supported(good));
    }
    for bad in ["a.flac", "mp3", "a.mp3x", "", "p3"] {
        assert!(!deck::shell_audio_supported(bad));
    }
    let d = Deck::new();
    assert_eq!(d.play(""), Play::Nothing);
    assert_eq!(d.play("a.mp3"), Play::Shell);
    assert_eq!(d.play("a.ogg"), Play::Pump);
    assert_eq!(deck::dec_label(Decoding::Software), "sw");
    assert_eq!(deck::dec_label(Decoding::Hardware), "hw");
    assert_eq!(deck::dec_label(Decoding::Plain), "pcm");
}

#[test]
fn the_shell_plays_a_track_to_its_end() {
    let mut d = shell_playing(60000);
    assert!(d.keeps_awake());
    assert!(!d.shell_audio_poll(0, &status(1, 59500)));
    assert_eq!(
        d.state_json(),
        "{\"playing\":true,\"paused\":false,\"path\":\"a.mp3\",\"pos\":59500,\"dur\":60000,\"rate\":44100,\"dec\":\"shell\"}"
    );
    assert!(!d.shell_audio_poll(0, &status(2, 0)));
    assert_eq!(
        d.state_json(),
        "{\"playing\":false,\"paused\":false,\"path\":\"a.mp3\",\"pos\":60000,\"dur\":60000,\"rate\":44100,\"dec\":\"shell\"}"
    );
}

#[test]
fn interruptions_are_overcome() {
    let mut d = shell_playing(60000);
    assert!(!d.shell_audio_poll(0, &status(1, 30000)));
    assert!(d.shell_audio_poll(0, &status(2, 30001)));
    assert!(d.state_json().contains("\"playing\":false,\"paused\":true,\"path\":\"a.mp3\",\"pos\":30001"));
    assert!(d.shell_audio_poll(0, &status(2, 0)));
    assert!(d.state_json().contains("\"pos\":30001"));
    assert!(!d.shell_audio_poll(1, &status(1, 5)));
    assert!(d.state_json().contains("\"pos\":30001"));
    assert!(d.power_event(4) && !d.power_event(0));
    assert!(d.shell_is_active() && !Deck::new().shell_is_active());
    assert!(d.pause());
    assert!(!d.shell_audio_poll(0, &status(2, 30001)));
    assert!(!d.power_event(4) && !d.keeps_awake());
    assert_eq!(d.resume(""), deck::Resume::Shell);
    assert!(d.keeps_awake());
}

#[test]
fn the_shell_can_refuse() {
    let mut d = Deck::new();
    let gone = StartEvent::Service { found: false, ret: 0, t1: 0, t2: 0 };
    assert_eq!(d.shell_audio_start(gone), StartAction::Refused);
    let cold = StartEvent::Service { found: true, ret: -3, t1: 0, t2: 0 };
    assert_eq!(d.shell_audio_start(cold), StartAction::Refused);
    assert_eq!(d.shell_audio_start(StartEvent::Track(9)), StartAction::Refused);
    assert!(!d.shell_audio_stop());
    let mut d = shell_playing(5);
    assert!(!d.shell_audio_poll(0, &status(3, 4)) || d.keeps_awake());
    for _ in 1..20 {
        assert_eq!(d.shell_audio_start(StartEvent::Polled), StartAction::Poll);
    }
    assert_eq!(d.shell_audio_start(StartEvent::Polled), StartAction::GiveUp);
    assert!(!d.keeps_awake());
    assert_eq!(d.shell_audio_start(StartEvent::Begin), StartAction::AskPort);
    assert_eq!(d.shell_audio_start(StartEvent::Begin), StartAction::Open);
}

#[test]
fn stopping_the_deck_stops_the_shell() {
    let mut d = shell_playing(5);
    assert!(d.stop());
    assert!(d.is_stopped() && !d.is_paused());
    assert!(d.state_json().contains("\"dec\":\"sw\""));
    assert_eq!(d.shell_audio_start(StartEvent::Begin), StartAction::Open);
    assert_eq!(d.shell_audio_terminate(), Some((5, 8)));
    assert_eq!(d.shell_ctx(), None);
    assert!(!d.shell_audio_poll(0, &status(1, 1)));
    d.spawn_ready("x");
    assert!(d.spawn_waits(0) && d.spawn_waits(49) && !d.spawn_waits(50) && !d.is_stopped());
    d.worker_done();
    assert_eq!(d.resume("x"), deck::Resume::Restart);
    assert_eq!(d.resume(""), deck::Resume::Nothing);
}

#[test]
fn durations_come_from_the_shell_or_the_file() {
    let mut b = vec![0u8; deck::TRACK_BYTES];
    b[8..12].copy_from_slice(&123456u32.to_le_bytes());
    assert_eq!(deck::shell_audio_duration(0, &b), 123456);
    assert_eq!(deck::shell_audio_duration(1, &b), 0);
    assert_eq!(deck::shell_audio_duration_or_probe(7, Some((44100, 44100))), 7);
    assert_eq!(deck::shell_audio_duration_or_probe(0, Some((44100, 44100))), 1000);
    assert_eq!(deck::shell_audio_duration_or_probe(0, None), 0);
}

#[test]
fn the_watchdog_tells_events_apart() {
    let mut w = Watchdog::new();
    assert!(w.event_num_failed() && !w.event_num_failed());
    assert_eq!(w.app_event(deck::APP_QUIT), AppEvent::Quit);
    assert_eq!(w.app_event(deck::APP_DEACTIVATE), AppEvent::Deactivated);
    assert_eq!(w.app_event(deck::APP_ACTIVATE), AppEvent::Activated);
    for _ in 0..10 {
        assert_eq!(w.app_event(7), AppEvent::Unknown);
    }
    assert_eq!(w.app_event(7), AppEvent::Ignored);
}
