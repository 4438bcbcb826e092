use std::collections::VecDeque;

use loopers::api::{Command, FrameTime};
use loopers::schedule::{plan_period, Step};
use loopers::trigger::{add_trigger, Trigger, TRIGGER_LIMIT};

fn trigger(at: i64) -> Trigger {
    Trigger { triggered_at: FrameTime(at), command: Command::NextPart }
}

fn queue(times: &[i64]) -> VecDeque<Trigger> {
    times.iter().map(|t| trigger(*t)).collect()
}

fn io(time: i64, start: usize, end: usize) -> Step {
    Step::Io { time, start, end }
}

#[test]
fn an_empty_queue_gives_one_step() {
    let mut q = queue(&[]);
    assert_eq!(plan_period(&mut q, 512, 256), vec![io(512, 0, 256)]);
    assert_eq!(plan_period(&mut q, 512, 0), vec![]);
}

#[test]
fn no_command_missed() {
    let mut q = queue(&[100, 100, 150, 300]);
    assert_eq!(
        plan_period(&mut q, 100, 200),
        vec![
            Step::Run(trigger(100)),
            Step::Run(trigger(100)),
            io(100, 0, 50),
            Step::Run(trigger(150)),
            io(150, 50, 200),
        ]
    );
    assert_eq!(q, queue(&[300]));
}

#[test]
fn time_zero_does_not_wait() {
    let mut q = queue(&[120, 0]);
    assert_eq!(
        plan_period(&mut q, 100, 50),
        vec![io(100, 0, 20), Step::Run(trigger(120)), Step::Run(trigger(0)), io(120, 20, 50)]
    );
}

#[test]
fn only_overtaken_commands_are_dropped() {
    let mut q = queue(&[99, 140, 120, 145]);
    assert_eq!(
        plan_period(&mut q, 100, 50),
        vec![
            io(100, 0, 40),
            Step::Run(trigger(140)),
            io(140, 40, 45),
            Step::Run(trigger(145)),
            io(145, 45, 50),
        ]
    );
    assert!(q.is_empty());
}

#[test]
fn a_waiting_front_blocks_the_queue() {
    let mut q = queue(&[500, 120]);
    assert_eq!(plan_period(&mut q, 100, 50), vec![io(100, 0, 50)]);
    assert_eq!(q, queue(&[500, 120]));
}

#[test]
fn period_covered_from_time_zero() {
    let mut q = queue(&[0, 10]);
    assert_eq!(plan_period(&mut q, -100, 50), vec![]);
    assert_eq!(plan_period(&mut q, -50, 50), vec![]);
    assert_eq!(q.len(), 2);
    assert_eq!(
        plan_period(&mut q, -20, 50),
        vec![Step::Run(trigger(0)), io(0, 20, 30), Step::Run(trigger(10)), io(10, 30, 50)]
    );
}

#[test]
fn commands_on_time_over_two_periods() {
    let mut q = queue(&[70, 140]);
    let first = plan_period(&mut q, 0, 128);
    let second = plan_period(&mut q, 128, 128);
    assert_eq!(first, vec![io(0, 0, 70), Step::Run(trigger(70)), io(70, 70, 128)]);
    assert_eq!(second, vec![io(128, 0, 12), Step::Run(trigger(140)), io(140, 12, 128)]);
}

#[test]
fn the_oldest_triggers_make_room() {
    let mut q = VecDeque::new();
    for i in 0..TRIGGER_LIMIT + 2 {
        add_trigger(&mut q, trigger(i as i64));
    }
    assert_eq!(q.len(), 128);
    assert_eq!(q.front(), Some(&trigger(2)));
    assert_eq!(q.back(), Some(&trigger(129)));
}
