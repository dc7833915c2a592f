use kabekami::config::Order;
use kabekami::scheduler::Scheduler;

fn paths(n: usize) -> Vec<String> {
    (0..n).map(|i| format!("/tmp/img{:03}.jpg", i)).collect()
}

#[test]
fn sequential_visits_all_and_wraps() {
    let mut s = Scheduler::new(paths(3), Order::Sequential);
    let p0 = s.next().unwrap();
    let p1 = s.next().unwrap();
    let p2 = s.next().unwrap();
    let p3 = s.next().unwrap();
    assert_eq!(p0, p3, "should cycle back to the first image");
    assert_ne!(p0, p1);
    assert_ne!(p1, p2);
}

#[test]
fn random_one_cycle_visits_each_exactly_once() {
    let n = 10;
    let mut s = Scheduler::new(paths(n), Order::Random);
    let mut seen = std::collections::HashSet::new();
    for _ in 0..n {
        seen.insert(s.next().unwrap());
    }
    assert_eq!(seen.len(), n, "each image should appear exactly once per cycle");
}

#[test]
fn prev_returns_to_previous_image() {
    let mut s = Scheduler::new(paths(5), Order::Sequential);
    let first = s.next().unwrap();
    let second = s.next().unwrap();
    assert_ne!(first, second);

    let back = s.prev().unwrap();
    assert_eq!(back, first, "prev() should return to the first image");
    assert_eq!(s.current(), Some(&first));
}

#[test]
fn prev_then_next_returns_to_same_position() {
    let mut s = Scheduler::new(paths(5), Order::Sequential);
    let _a = s.next().unwrap();
    let b = s.next().unwrap();

    s.prev();
    let b_again = s.next().unwrap();
    assert_eq!(b_again, b);
}

#[test]
fn prev_at_start_returns_none() {
    let mut s = Scheduler::new(paths(3), Order::Sequential);
    assert!(s.prev().is_none());
    s.next();
    assert!(s.prev().is_none());
}

#[test]
fn pause_and_resume() {
    let mut s = Scheduler::new(paths(3), Order::Sequential);
    assert!(!s.is_paused());
    s.pause();
    assert!(s.is_paused());
    s.resume();
    assert!(!s.is_paused());
}

#[test]
fn peek_next_does_not_advance() {
    let mut s = Scheduler::new(paths(3), Order::Sequential);
    s.next();
    let peeked = s.peek_next().cloned();
    let actual = s.next();
    assert_eq!(peeked, actual, "peek_next should not advance the queue");
}

#[test]
fn empty_scheduler_returns_none() {
    let mut s = Scheduler::new(vec![], Order::Random);
    assert!(s.next().is_none());
    assert!(s.prev().is_none());
    assert!(s.peek_next().is_none());
}

#[test]
fn sequential_order_follows_the_list_over_several_cycles() {
    let imgs = paths(4);
    let mut s = Scheduler::new(imgs.clone(), Order::Sequential);
    for k in 0..13 {
        assert_eq!(s.next().unwrap(), imgs[k % 4]);
    }
}

#[test]
fn random_order_every_cycle_is_a_permutation() {
    let imgs = paths(7);
    let mut s = Scheduler::new(imgs.clone(), Order::Random);
    for _cycle in 0..3 {
        let mut got: Vec<String> = (0..7).map(|_| s.next().unwrap()).collect();
        got.sort();
        assert_eq!(got, imgs);
    }
}

#[test]
fn next_then_prev_restores_the_state() {
    let mut s = Scheduler::new(paths(4), Order::Sequential);
    let a = s.next().unwrap();
    let b = s.next().unwrap();
    assert_eq!(s.prev().unwrap(), a);
    assert_eq!(s.current(), Some(&a));
    assert_eq!(s.peek_next(), Some(&b));
}

#[test]
fn removed_image_is_not_shown_again() {
    let imgs = paths(3);
    let mut s = Scheduler::new(imgs.clone(), Order::Sequential);
    let a = s.next().unwrap();
    s.remove_image(&imgs[1]);
    assert_eq!(s.current(), Some(&a));
    assert_eq!(s.image_count(), 2);
    for _ in 0..6 {
        assert_ne!(s.next().unwrap(), imgs[1]);
    }
}

#[test]
fn removing_the_current_image_clears_it() {
    let imgs = paths(3);
    let mut s = Scheduler::new(imgs.clone(), Order::Sequential);
    let a = s.next().unwrap();
    s.remove_image(&a);
    assert_eq!(s.current(), None);
    assert_eq!(s.next().unwrap(), imgs[1]);
}

#[test]
fn add_image_joins_the_running_cycle_once() {
    let mut s = Scheduler::new(paths(2), Order::Sequential);
    s.add_image("/tmp/new.jpg".to_string());
    s.add_image("/tmp/new.jpg".to_string());
    assert_eq!(s.image_count(), 3);
    let seen: Vec<String> = (0..3).map(|_| s.next().unwrap()).collect();
    assert_eq!(seen[2], "/tmp/new.jpg");
}

#[test]
fn history_is_bounded() {
    let mut s = Scheduler::new(paths(60), Order::Sequential);
    for _ in 0..60 {
        s.next();
    }
    let mut back = 0;
    while s.prev().is_some() {
        back += 1;
    }
    assert_eq!(back, 50);
}

#[test]
fn auto_next_waits_while_paused() {
    let imgs = paths(2);
    let mut s = Scheduler::new(imgs.clone(), Order::Sequential);
    s.pause();
    assert_eq!(s.auto_next(), None);
    assert_eq!(s.current(), None);
    s.resume();
    assert_eq!(s.auto_next(), Some(imgs[0].clone()));
}

#[test]
fn restore_current_only_for_known_images() {
    let imgs = paths(3);
    let mut s = Scheduler::new(imgs.clone(), Order::Sequential);
    assert!(s.restore_current(&imgs[1]));
    assert_eq!(s.current(), Some(&imgs[1]));
    assert!(!s.restore_current(&"/gone.jpg".to_string()));
    assert_eq!(s.current(), Some(&imgs[1]));
    assert_eq!(s.peek_next(), Some(&imgs[0]));
}

#[test]
fn random_order_is_shuffled() {
    let imgs = paths(12);
    let mut shuffled = false;
    for _ in 0..5 {
        let mut s = Scheduler::new(imgs.clone(), Order::Random);
        let cycle: Vec<String> = (0..12).map(|_| s.next().unwrap()).collect();
        if cycle != imgs {
            shuffled = true;
        }
    }
    assert!(shuffled, "five random cycles all in list order");
}

#[test]
fn build_queue_moves_the_avoided_image_off_the_front() {
    let imgs = paths(2);
    for _ in 0..20 {
        let q = Scheduler::build_queue(&imgs, Order::Random, Some(&imgs[0]));
        assert_eq!(q.len(), 2);
        assert_eq!(q[0], imgs[1]);
    }
}

#[test]
fn random_order_never_shows_an_image_twice_in_a_row() {
    for n in [2usize, 3, 5] {
        let mut s = Scheduler::new(paths(n), Order::Random);
        let mut last = s.next().unwrap();
        for _ in 0..(n * 40) {
            let r = s.next().unwrap();
            assert_ne!(r, last, "the same image twice in a row across a reshuffle");
            last = r;
        }
    }
}

#[test]
fn prev_walks_back_exactly_fifty_images() {
    let mut s = Scheduler::new(paths(7), Order::Random);
    let shown: Vec<String> = (0..55).map(|_| s.next().unwrap()).collect();
    for i in 0..50 {
        assert_eq!(s.prev(), Some(shown[53 - i].clone()));
    }
    assert_eq!(s.prev(), None);
}

#[test]
fn added_image_comes_out_after_the_waiting_queue() {
    let imgs = paths(4);
    let mut s = Scheduler::new(imgs.clone(), Order::Random);
    s.next();
    let waiting: Vec<String> = (0..3).map(|_| s.next().unwrap()).collect();
    s.prev();
    let front = s.peek_next().cloned().unwrap();
    s.add_image("/tmp/late.jpg".to_string());
    assert_eq!(s.next().unwrap(), front);
    assert_eq!(s.next().unwrap(), "/tmp/late.jpg");
    assert_eq!(waiting.len(), 3);
}

#[test]
fn removed_image_never_returns_through_next_prev_or_peek() {
    let imgs = paths(4);
    let mut s = Scheduler::new(imgs.clone(), Order::Random);
    for _ in 0..3 {
        s.next();
    }
    s.remove_image(&imgs[2]);
    for _ in 0..20 {
        assert_ne!(s.next().unwrap(), imgs[2]);
        assert_ne!(s.peek_next(), Some(&imgs[2]));
    }
    while let Some(p) = s.prev() {
        assert_ne!(p, imgs[2]);
    }
}

#[test]
fn paths_are_compared_by_their_components() {
    let imgs = vec!["/a/b.jpg".to_string(), "/a/c.jpg".to_string()];
    let mut s = Scheduler::new(imgs.clone(), Order::Sequential);
    s.add_image("/a//b.jpg".to_string());
    s.add_image("/a/./c.jpg".to_string());
    assert_eq!(s.image_count(), 2, "another spelling of a known path adds nothing");
    assert_eq!(s.next().unwrap(), "/a/b.jpg");
    s.remove_image(&"/a//b.jpg/".to_string());
    assert_eq!(s.image_count(), 1);
    assert_eq!(s.current(), None, "the image on screen was removed under another spelling");
    for _ in 0..4 {
        assert_eq!(s.next().unwrap(), "/a/c.jpg");
    }
    assert!(s.restore_current(&"/a//c.jpg".to_string()));
    assert!(!s.restore_current(&"/a/b.jpg".to_string()));
}
