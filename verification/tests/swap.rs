use explora::swap::{
    pass_ticks, query_base, Acquire, Acquired, DisplayWait, DrawResult, Present, Swap,
    GPU_STAMPS_PER_FRAME,
};

#[test]
fn a_frame_goes_from_acquire_to_present() {
    let mut swap = Swap::new(3, 2, 0);
    assert_eq!(swap.acquire_guard(), None);
    let a = swap.acquired(Acquire::Image(1)).unwrap();
    assert_eq!(a, Acquired { image: 1, slot: 0 });
    assert!(!swap.reads_back(1, 1));
    assert_eq!(swap.submit(a), 1);
    assert_eq!(swap.presented(1, Present::Optimal), DrawResult::Presented(2));
    assert_eq!(swap.last_presented, 1);
    assert!(swap.reads_back(1, 1));
    assert!(!swap.reads_back(1, 2));
    assert!(!swap.reads_back(1, 0));
    assert_eq!(swap.drain(), vec![(1, 1)]);
    assert_eq!(swap.slot(2, 1), 5);
}

#[test]
fn semaphores_wait_for_the_frame_that_used_them() {
    let mut swap = Swap::new(2, 1, 0);
    for image in [0, 1] {
        assert_eq!(swap.acquire_guard(), None);
        let a = swap.acquired(Acquire::Image(image)).unwrap();
        assert_eq!(a.slot, image);
        swap.submit(a);
    }
    // The first semaphore is taken again once the first frame is done.
    assert_eq!(swap.acquire_guard(), Some(0));
    let a = swap.acquired(Acquire::Image(0)).unwrap();
    assert_eq!(a.slot, 0);
    assert!(swap.acquire_fences.iter().all(|f| *f != Some(0)));
    assert_eq!(swap.submit(a), 3);
}

#[test]
fn lost_swapchains_are_rebuilt() {
    let mut swap = Swap::new(2, 1, 7);
    assert_eq!(swap.acquired(Acquire::NotReady), Err(DrawResult::Skipped));
    assert_eq!(swap.acquired(Acquire::OutOfDate), Err(DrawResult::Rebuild));
    assert_eq!(swap.acquire_index, 0);
    let a = swap.acquired(Acquire::Image(0)).unwrap();
    assert_eq!(swap.submit(a), 8);
    assert_eq!(swap.presented(0, Present::Suboptimal), DrawResult::Rebuild);
    assert_eq!(swap.presented(0, Present::OutOfDate), DrawResult::Rebuild);
}

#[test]
fn display_waits_stay_two_presents_behind() {
    let swap = Swap::new(2, 1, 7);
    assert_eq!(swap.display_wait(false), DisplayWait::Unsupported);
    assert_eq!(swap.display_wait(true), DisplayWait::For(5));
    assert_eq!(Swap::new(2, 1, 2).display_wait(true), DisplayWait::NotYet);
}

#[test]
fn passes_add_up_to_the_frame() {
    assert_eq!(GPU_STAMPS_PER_FRAME, 11);
    assert_eq!(query_base(3), 33);
    let (passes, whole) = pass_ticks(&vec![250, 255, 3, 10], 8);
    assert_eq!(passes, vec![5, 4, 7]);
    assert_eq!(whole, 16);
    assert_eq!(pass_ticks(&vec![9], 64), (vec![], 0));
}
