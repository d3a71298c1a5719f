use jotihunt::relay::{Received, Relay};
use jotihunt::Traccar;

fn point(n: usize) -> Traccar {
    Traccar { id: format!("id{n}"), lat: format!("{n}.0"), lon: format!("-{n}.5") }
}

#[test]
fn every_viewer_gets_every_point_after_it_joined() {
    let mut relay = Relay::new(16);
    assert_eq!(relay.publish(point(0)), 0);
    let a = relay.subscribe();
    assert_eq!(relay.publish(point(1)), 1);
    let b = relay.subscribe();
    assert_eq!(relay.publish(point(2)), 2);
    let c = relay.subscribe();
    assert_eq!(relay.publish(point(3)), 3);

    assert_eq!(relay.receive(a), Received::Point(point(1)));
    assert_eq!(relay.receive(a), Received::Point(point(2)));
    assert_eq!(relay.receive(a), Received::Point(point(3)));
    assert_eq!(relay.receive(a), Received::Empty);
    assert_eq!(relay.receive(b), Received::Point(point(2)));
    assert_eq!(relay.receive(b), Received::Point(point(3)));
    assert_eq!(relay.receive(b), Received::Empty);
    assert_eq!(relay.receive(c), Received::Point(point(3)));
    assert_eq!(relay.receive(c), Received::Empty);
}

#[test]
fn a_slow_viewer_skips_forward_and_holds_nobody_up() {
    let mut relay = Relay::new(4);
    let slow = relay.subscribe();
    let fast = relay.subscribe();
    for n in 0..10 {
        assert_eq!(relay.publish(point(n)), 2);
        assert_eq!(relay.receive(fast), Received::Point(point(n)));
    }
    assert_eq!(relay.receive(fast), Received::Empty);
    assert_eq!(relay.receive(slow), Received::Lagged(6));
    for n in 6..10 {
        assert_eq!(relay.receive(slow), Received::Point(point(n)));
    }
    assert_eq!(relay.receive(slow), Received::Empty);
}

#[test]
fn a_viewer_with_a_full_buffer_has_lost_nothing_yet() {
    let mut relay = Relay::new(3);
    let v = relay.subscribe();
    for n in 0..3 {
        relay.publish(point(n));
    }
    assert_eq!(relay.receive(v), Received::Point(point(0)));
    relay.publish(point(3));
    assert_eq!(relay.receive(v), Received::Point(point(1)));
    relay.publish(point(4));
    relay.publish(point(5));
    assert_eq!(relay.receive(v), Received::Lagged(1));
    assert_eq!(relay.receive(v), Received::Point(point(3)));
}

#[test]
fn a_closed_relay_ends_every_viewer_after_what_waits() {
    let mut relay = Relay::new(16);
    let a = relay.subscribe();
    let b = relay.subscribe();
    relay.publish(point(1));
    assert_eq!(relay.receive(a), Received::Point(point(1)));
    relay.close();
    assert_eq!(relay.publish(point(2)), 0);
    assert_eq!(relay.receive(a), Received::Closed);
    assert_eq!(relay.receive(b), Received::Point(point(1)));
    assert_eq!(relay.receive(b), Received::Closed);
}

#[test]
fn a_viewer_that_left_gets_nothing() {
    let mut relay = Relay::new(2);
    let a = relay.subscribe();
    let b = relay.subscribe();
    relay.publish(point(1));
    relay.unsubscribe(a);
    assert_eq!(relay.publish(point(2)), 1);
    assert_eq!(relay.receive(a), Received::Closed);
    assert_eq!(relay.receive(b), Received::Point(point(1)));
    assert_eq!(relay.receive(b), Received::Point(point(2)));
    assert_eq!(relay.receive(b + 1), Received::Closed);
}

#[test]
fn a_copy_of_a_point_is_the_point() {
    assert_eq!(point(7).duplicate(), point(7));
}

#[test]
fn the_number_of_a_viewer_that_left_goes_to_the_next_one() {
    let mut relay = Relay::new(4);
    let a = relay.subscribe();
    let b = relay.subscribe();
    relay.publish(point(1));
    relay.unsubscribe(a);
    let c = relay.subscribe();
    assert_eq!((a, b, c), (0, 1, 0));
    assert_eq!(relay.receive(c), Received::Empty);
    assert_eq!(relay.publish(point(2)), 2);
    assert_eq!(relay.receive(c), Received::Point(point(2)));
    assert_eq!(relay.receive(b), Received::Point(point(1)));
    assert_eq!(relay.subscribe(), 2);
}

#[test]
fn viewers_that_join_at_different_times_get_what_was_published_after() {
    let mut relay = Relay::new(3);
    let mut got: Vec<Vec<Traccar>> = vec![vec![], vec![], vec![]];
    let mut joined_after: Vec<usize> = Vec::new();
    let slow = relay.subscribe();
    assert_eq!(slow, 0);
    for n in 0..12 {
        if n % 4 == 0 {
            let id = relay.subscribe();
            assert_eq!(id, joined_after.len() + 1);
            joined_after.push(n);
        }
        assert_eq!(relay.publish(point(n)), joined_after.len() + 1);
        for (k, seen) in got.iter_mut().enumerate().take(joined_after.len()) {
            if (n + k) % 2 == 0 {
                while let Received::Point(p) = relay.receive(k + 1) {
                    seen.push(p);
                }
            }
        }
    }
    for (k, seen) in got.iter_mut().enumerate() {
        while let Received::Point(p) = relay.receive(k + 1) {
            seen.push(p);
        }
        let expected: Vec<Traccar> = (joined_after[k]..12).map(point).collect();
        assert_eq!(*seen, expected);
    }
    assert_eq!(relay.receive(slow), Received::Lagged(9));
    assert_eq!(relay.receive(slow), Received::Point(point(9)));
}
