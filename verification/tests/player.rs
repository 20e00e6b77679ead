//! Playing: the buffer of samples, the device and the decoder.

use ezmusic::player;
use ezmusic::player::AudioPlayer;
use ezmusic::player::ChannelSource;
use ezmusic::player::DecodeOutcome;
use ezmusic::player::DecoderAction;
use ezmusic::player::Offer;
use ezmusic::player::PacketOutcome;
use ezmusic::player::PlaybackState;
use ezmusic::player::PlayerEvent;
use ezmusic::player::Ring;
use ezmusic::player::Turn;
use ezmusic::player::NO_SEEK;

fn bits(sample: f32) -> u32 {
    sample.to_bits()
}

#[test]
fn ring_preserves_order_and_capacity() {
    let mut ring = Ring::new(2);
    assert!(ring.push(bits(0.25)));
    assert!(ring.push(bits(-0.5)));
    assert!(!ring.push(bits(1.0)));
    assert_eq!(ring.pop(), Some(bits(0.25)));
    assert_eq!(ring.pop(), Some(bits(-0.5)));
    assert_eq!(ring.pop(), None);
}

#[test]
fn ring_can_be_filled_again_and_again() {
    let mut ring = Ring::new(3);
    for n in 0..10 {
        assert!(ring.push(n));
        assert_eq!(ring.pop(), Some(n));
    }
    ring.push(1);
    ring.push(2);
    assert_eq!(ring.len(), 2);
    assert_eq!(ring.drain(5), vec![1, 2]);
    ring.push(7);
    ring.clear();
    assert!(ring.is_empty());
}

#[test]
fn converts_mono_and_stereo_frames() {
    assert_eq!(player::stereo_frame(&[bits(0.5)]), (bits(0.5), bits(0.5)));
    assert_eq!(
        player::stereo_frame(&[bits(0.2), bits(-0.2)]),
        (bits(0.2), bits(-0.2))
    );
}

#[test]
fn new_player_reports_stopped_state() {
    let mut player = AudioPlayer::new(None);
    assert_eq!(player.state(), PlaybackState::Stopped);
    assert!(!player.is_active());
    assert_eq!(player.toggle_pause(), None);
}

#[test]
fn a_player_pauses_and_goes_on() {
    let mut player = AudioPlayer::new(None);
    player.play(48000);
    assert_eq!(player.toggle_pause(), Some(PlaybackState::Paused));
    assert_eq!(player.state(), PlaybackState::Paused);
    assert_eq!(player.toggle_pause(), Some(PlaybackState::Playing));
    player.observe(96000, 3);
    assert_eq!(player.position(), 2000);
    assert_eq!(player.underflows(), 3);
    player.reset_underflows();
    assert_eq!(player.underflows(), 0);
    player.stop();
    assert!(!player.is_active());
}

#[test]
fn volume_stays_below_its_limit() {
    let mut player = AudioPlayer::new(None);
    player.set_volume(10);
    assert_eq!(player.volume(), 80);
    player.play(48000);
    player.set_volume(200);
    assert_eq!(player.volume(), 100);
}

#[test]
fn seeking_stops_at_the_beginning() {
    let mut player = AudioPlayer::new(None);
    player.play(48000);
    player.observe(48000, 0);
    player.seek_relative(-5);
    assert_eq!(player.current.unwrap().seek_millis, 0);
    player.seek_relative(5);
    assert_eq!(player.current.unwrap().seek_millis, 6000);
}

#[test]
fn devices_outside_their_bounds_are_refused() {
    let plan = player::plan_output(48000, 2).unwrap();
    assert_eq!(plan.prebuffer, 9600);
    assert!(plan.prebuffer < plan.capacity);
    assert!(player::plan_output(7999, 2).is_err());
    assert!(player::plan_output(48000, 0).is_err());
    assert!(player::plan_output(48000, 9).is_err());
}

#[test]
fn the_preferred_device_is_found_by_its_name() {
    let names = vec![Some("a".to_string()), None, Some("b".to_string())];
    assert_eq!(
        player::output_device(&Some("b".to_string()), &names),
        Some(2)
    );
    assert_eq!(player::output_device(&Some("c".to_string()), &names), None);
}

#[test]
fn the_decoder_stops_before_it_seeks() {
    assert_eq!(player::decoder_turn(true, 5, 48000), Turn::Stop);
    assert_eq!(
        player::decoder_turn(false, 1500, 48000),
        Turn::Seek {
            millis: 1500,
            frames: 72000
        }
    );
    assert!(matches!(
        player::push_sample(true, NO_SEEK),
        Offer::Abandon
    ));
    assert!(matches!(player::push_sample(false, 5), Offer::Drop));
    assert!(matches!(player::push_sample(false, NO_SEEK), Offer::Store));
}

#[test]
fn packets_of_other_tracks_are_passed_over() {
    assert_eq!(
        player::after_packet(PacketOutcome::Packet { track_id: 2 }, 1),
        DecoderAction::Again
    );
    assert_eq!(
        player::after_packet(PacketOutcome::Packet { track_id: 1 }, 1),
        DecoderAction::Proceed
    );
    assert!(matches!(
        player::after_decode(DecodeOutcome::Samples {
            rate: 0,
            channels: 2
        }),
        DecoderAction::Fail(_)
    ));
    assert_eq!(
        player::after_decode(DecodeOutcome::Samples {
            rate: 44100,
            channels: 2
        }),
        DecoderAction::Proceed
    );
}

#[test]
fn a_stopped_decoder_reports_no_fault() {
    assert_eq!(player::decoder_failure(true, "x".into()), None);
    assert!(matches!(
        player::decoder_failure(false, "x".into()),
        Some(PlayerEvent::Error(_))
    ));
}

#[test]
fn the_end_is_reported_once() {
    let first = player::render(4, 2, 2, true, true, false);
    assert!(first.ended);
    let again = player::render(4, 0, 2, true, true, true);
    assert!(!again.ended);
}

#[test]
fn stereo_is_laid_out_for_every_device() {
    assert_eq!(player::output_layout(1), vec![ChannelSource::Mix]);
    assert_eq!(
        player::output_layout(3),
        vec![
            ChannelSource::Left,
            ChannelSource::Right,
            ChannelSource::Silence
        ]
    );
}
