use himawari::run::replay;
use himawari::{DownloadError, DownloadId, Event, Fraction, Progress, State, TileEvent, Wait};

fn id() -> DownloadId {
    DownloadId::new(1_704_164_645, 0)
}

fn chunk(position: usize, size: usize) -> Event {
    Event::Tile(position, TileEvent::Chunk(vec![position as u8; size]))
}

fn end(position: usize) -> Event {
    Event::Tile(position, TileEvent::EndOfStream)
}

fn progress_only(told: Vec<(DownloadId, Progress)>) -> Vec<Progress> {
    told.into_iter()
        .map(|(tag, progress)| {
            assert_eq!(tag, id());
            progress
        })
        .collect()
}

fn share(downloaded: u128, total: u128) -> Progress {
    Progress::Advanced(Fraction { downloaded, total })
}

#[test]
fn replay_of_nothing_tells_nothing() {
    let (told, state) = replay(id(), State::new(id()), Vec::new());
    assert!(told.is_empty());
    assert_eq!(state.wait(), Wait::Responses);
}

#[test]
fn whole_run_in_order() {
    let events = vec![
        Event::Responses(Ok([Some(100), Some(200), Some(50), Some(650)])),
        chunk(0, 100),
        chunk(2, 50),
        end(2),
        chunk(3, 400),
        chunk(1, 200),
        end(0),
        chunk(3, 250),
        end(3),
        end(1),
        Event::Idle,
    ];
    let (told, state) = replay(id(), State::new(id()), events);
    assert_eq!(
        progress_only(told),
        vec![
            Progress::Started,
            share(100, 1000),
            share(150, 1000),
            share(150, 1000),
            share(550, 1000),
            share(750, 1000),
            share(750, 1000),
            share(1000, 1000),
            share(1000, 1000),
            share(1000, 1000),
            Progress::Finished([vec![0; 100], vec![1; 200], vec![2; 50], vec![3; 650]]),
        ]
    );
    assert!(state.is_terminal());
}

#[test]
fn every_rotation_of_the_tiles_gives_the_same_buffers() {
    let sizes = [100usize, 200, 50, 650];
    for rotation in 0..4 {
        for piece in [1usize, 7, 50, 1000] {
            let mut events = vec![Event::Responses(Ok([
                Some(100),
                Some(200),
                Some(50),
                Some(650),
            ]))];
            let mut left = sizes;
            let mut closed = [false; 4];
            let mut turn = rotation;
            while closed.iter().any(|c| !c) {
                let position = turn % 4;
                turn += 1;
                if closed[position] {
                    continue;
                }
                if left[position] == 0 {
                    events.push(end(position));
                    closed[position] = true;
                } else {
                    let take = left[position].min(piece);
                    events.push(chunk(position, take));
                    left[position] -= take;
                }
            }
            events.push(Event::Idle);
            let (told, state) = replay(id(), State::new(id()), events);
            let told = progress_only(told);
            assert!(state.is_terminal());
            assert_eq!(told.first(), Some(&Progress::Started));
            assert_eq!(told[told.len() - 2], share(1000, 1000));
            match told.last() {
                Some(Progress::Finished(buffers)) => {
                    let lengths: Vec<usize> = buffers.iter().map(|b| b.len()).collect();
                    assert_eq!(lengths, vec![100, 200, 50, 650]);
                }
                other => panic!("expected Finished, got {:?}", other),
            }
            let mut last = 0u128;
            for progress in &told[1..told.len() - 1] {
                match progress {
                    Progress::Advanced(share) => {
                        assert_eq!(share.total, 1000);
                        assert!(share.downloaded >= last);
                        assert!(share.downloaded <= share.total);
                        last = share.downloaded;
                    }
                    other => panic!("expected Advanced, got {:?}", other),
                }
            }
        }
    }
}

#[test]
fn missing_length_run_is_one_failure() {
    let events = vec![
        Event::Responses(Ok([Some(100), Some(200), None, Some(650)])),
        chunk(0, 10),
        end(1),
        Event::Idle,
        Event::Responses(Ok([Some(1); 4])),
    ];
    let (told, state) = replay(id(), State::new(id()), events);
    assert_eq!(
        progress_only(told),
        vec![Progress::Failed(DownloadError::MissingContentLength)]
    );
    assert!(state.is_terminal());
}

#[test]
fn broken_stream_after_k_deliveries() {
    for k in [0usize, 1, 2, 5, 9] {
        let mut events = vec![Event::Responses(Ok([Some(100); 4]))];
        for delivery in 0..k {
            events.push(chunk(delivery % 4, 3));
        }
        let cause = DownloadError::Transport(String::from("broken pipe"));
        events.push(Event::Tile(1, TileEvent::Failed(cause.clone())));
        events.push(chunk(0, 3));
        events.push(Event::Idle);
        let (told, state) = replay(id(), State::new(id()), events);
        let told = progress_only(told);
        assert_eq!(told.len(), k + 2);
        assert_eq!(told[0], Progress::Started);
        for (delivery, progress) in told[1..=k].iter().enumerate() {
            assert_eq!(*progress, share(3 * (delivery as u128 + 1), 400));
        }
        assert_eq!(told[k + 1], Progress::Failed(cause));
        assert!(state.is_terminal());
    }
}

#[test]
fn replay_from_finished_is_silent() {
    let events = vec![Event::Idle, chunk(0, 1), end(3), Event::Responses(Ok([Some(1); 4]))];
    let (told, state) = replay(id(), State::Finished, events);
    assert!(told.is_empty());
    assert!(state.is_terminal());
}

#[test]
fn replay_continues_where_it_stopped() {
    let (told, state) = replay(
        id(),
        State::new(id()),
        vec![Event::Responses(Ok([Some(2), Some(2), Some(2), Some(2)])), chunk(0, 2)],
    );
    assert_eq!(progress_only(told), vec![Progress::Started, share(2, 8)]);
    let (told, state) = replay(id(), state, vec![chunk(1, 2), end(0)]);
    assert_eq!(progress_only(told), vec![share(4, 8), share(4, 8)]);
    assert_eq!(state.wait(), Wait::Tile([false, true, true, true]));
}
