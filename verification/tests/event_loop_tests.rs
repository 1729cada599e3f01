use uringy::event_loop::CompletionKind;
use uringy::event_loop::Config;
use uringy::event_loop::EventLoop;
use uringy::event_loop::classify_completion;

#[test]
fn notify_then_wait() {
    let mut el = EventLoop::new();
    let (notifier, waiter) = el.generate_notify();

    notifier.notify(&mut el);

    // Awaiting after the notification completes without suspending.
    assert!(waiter.poll(&mut el, 5));
}

#[test]
fn wait_then_notify_other_task() {
    let mut el = EventLoop::new();
    let (notifier, waiter) = el.generate_notify();

    // The waiting task suspends; the notification from the other task
    // queues it to run again.
    assert!(!waiter.poll(&mut el, 5));
    notifier.notify(&mut el);

    assert_eq!(el.next_task(), Some(5));
    assert_eq!(el.next_task(), None);
}

#[test]
fn tasks_run_in_schedule_order() {
    let mut el = EventLoop::new();

    el.schedule_task(1);
    el.schedule_task(2);
    el.schedule_task(3);

    assert_eq!(el.next_task(), Some(1));
    assert_eq!(el.next_task(), Some(2));
    assert_eq!(el.next_task(), Some(3));
    assert_eq!(el.next_task(), None);
}

#[test]
fn syscall_completion_wakes_the_awaiting_task() {
    let mut el = EventLoop::new();

    let key = el.register_syscall(8);
    assert_eq!(el.complete_syscall(key), Some(8));
    assert_eq!(el.next_task(), Some(8));

    // A second completion for the same user data finds nobody awaiting.
    assert_eq!(el.complete_syscall(key), None);
    // So does one meant for another runtime on the same ring.
    assert_eq!(el.complete_syscall(1000), None);
}

#[test]
fn cross_thread_wakes_are_recognized() {
    assert!(matches!(classify_completion(-7, -7), CompletionKind::TaskWake));
    assert!(matches!(classify_completion(-7, 0), CompletionKind::Syscall));
}

#[test]
fn default_config() {
    let config = Config::default();
    assert_eq!(config.sq_size(), 4096);
}
