use ysos::context::ProcessContext;
use ysos::input;
use ysos::manager::BootInfo;
use ysos::manager::ProcessManager;
use ysos::pid::ProcessId;
use ysos::process::ProgramStatus;
use ysos::procs;
use ysos::semaphore::SemaphoreResult;
use ysos::semaphore::SemaphoreSet;
use ysos::service;
use ysos::sync::Semaphore;
use ysos::sync::SpinLock;

#[derive(Clone, Copy, PartialEq)]
enum Step {
    Server,
    Left,
    Right,
    Eaten,
}

fn boot() -> ProcessManager {
    let boot = BootInfo { kernel_pages: 64, free_frames: 4096, app_list: vec![] };
    procs::init(boot, input::init())
}

#[test]
fn semaphore_fifo_wakeup_order() {
    // Sem(k, 0); A, B, C wait in that order; three signals wake A, B, C
    let mut set = SemaphoreSet::new();
    assert!(set.insert(7, 0));
    let a = ProcessId(10);
    let b = ProcessId(11);
    let c = ProcessId(12);
    assert_eq!(set.wait(7, a), SemaphoreResult::Block(a));
    assert_eq!(set.wait(7, b), SemaphoreResult::Block(b));
    assert_eq!(set.wait(7, c), SemaphoreResult::Block(c));
    assert_eq!(set.signal(7), SemaphoreResult::WakeUp(a));
    assert_eq!(set.signal(7), SemaphoreResult::WakeUp(b));
    assert_eq!(set.signal(7), SemaphoreResult::WakeUp(c));
    assert_eq!(set.signal(7), SemaphoreResult::Done);
}

#[test]
fn semaphore_mutual_exclusion_with_one_permit() {
    let mut set = SemaphoreSet::new();
    assert!(set.insert(1, 1));
    let a = ProcessId(10);
    let b = ProcessId(11);
    // A takes the permit; B must block until A signals
    assert_eq!(set.wait(1, a), SemaphoreResult::Done);
    assert_eq!(set.wait(1, b), SemaphoreResult::Block(b));
    assert_eq!(set.signal(1), SemaphoreResult::WakeUp(b));
    assert_eq!(set.signal(1), SemaphoreResult::Done);
}

#[test]
fn semaphore_table_keys() {
    let mut set = SemaphoreSet::new();
    assert!(set.insert(1, 1));
    assert!(!set.insert(1, 5));
    assert_eq!(set.wait(9, ProcessId(2)), SemaphoreResult::NotExist);
    assert_eq!(set.signal(9), SemaphoreResult::NotExist);
    assert!(!set.remove(9));
    assert!(set.remove(1));
    assert_eq!(set.wait(1, ProcessId(2)), SemaphoreResult::NotExist);
}

#[test]
fn kernel_sem_wait_blocks_and_signal_wakes_in_order() {
    // two forked processes wait on an empty semaphore; the kernel wakes them
    // in FIFO order when the parent signals
    let mut m = boot();
    let mut ctx = ProcessContext::empty();
    assert_eq!(procs::new_sem(&mut m, 5, 0), 0);
    assert_eq!(procs::new_sem(&mut m, 5, 0), 1);
    let child_a = service::sys_fork(&mut m, &mut ctx).unwrap();
    assert_eq!(m.get_pid(), child_a);
    // child A waits and blocks; the parent runs again
    procs::sem_wait(&mut m, 5, &mut ctx);
    assert_eq!(m.get_pid(), ProcessId(1));
    let child_b = service::sys_fork(&mut m, &mut ctx).unwrap();
    assert_eq!(m.get_pid(), child_b);
    procs::sem_wait(&mut m, 5, &mut ctx);
    assert_eq!(m.get_pid(), ProcessId(1));
    let table = service::sys_list_process(&m);
    assert!(table.contains(&(child_a.0, ProgramStatus::Blocked)));
    assert!(table.contains(&(child_b.0, ProgramStatus::Blocked)));
    // two signals wake A then B
    procs::sem_signal(&mut m, 5, &mut ctx);
    let table = service::sys_list_process(&m);
    assert!(table.contains(&(child_a.0, ProgramStatus::Ready)));
    assert!(table.contains(&(child_b.0, ProgramStatus::Blocked)));
    procs::sem_signal(&mut m, 5, &mut ctx);
    let table = service::sys_list_process(&m);
    assert!(table.contains(&(child_a.0, ProgramStatus::Ready)));
    assert!(table.contains(&(child_b.0, ProgramStatus::Ready)));
}

#[test]
fn spin_lock_round_trip() {
    let mut lock = SpinLock::new();
    lock.acquire();
    lock.release();
    lock.acquire();
    lock.release();
}

#[test]
fn user_semaphore_handles() {
    let mut m = boot();
    let mut ctx = ProcessContext::empty();
    let sem = Semaphore::new(3);
    assert!(sem.init(&mut m, 1));
    assert!(!sem.init(&mut m, 1));
    assert!(sem.wait(&mut m, &mut ctx));
    assert!(sem.signal(&mut m, &mut ctx));
    assert!(sem.remove(&mut m));
    let ghost_sem = Semaphore::new(4);
    assert!(!ghost_sem.wait(&mut m, &mut ctx));
}

#[test]
fn dining_philosophers_all_eat() {
    // five philosophers as five forked processes; per-chopstick semaphores
    // and a server semaphore of four keep them deadlock-free
    let mut m = boot();
    let mut ctx = ProcessContext::empty();
    for k in 0..5u32 {
        assert_eq!(procs::new_sem(&mut m, k, 1), 0);
    }
    assert_eq!(procs::new_sem(&mut m, 100, 4), 0);

    let mut pids: Vec<ProcessId> = Vec::new();
    for _ in 0..5 {
        let child = service::sys_fork(&mut m, &mut ctx).unwrap();
        // some ready process runs now; tick until the parent is back
        pids.push(child);
        while m.get_pid() != ProcessId(1) {
            procs::switch(&mut m, &mut ctx);
        }
    }

    // each philosopher: wait server, wait left, wait right, eat, release
    let mut step = [Step::Server; 5];
    let mut eaten = [false; 5];
    let mut rounds = 0;
    while eaten.iter().any(|e| !e) && rounds < 1000 {
        rounds += 1;
        let cur = m.get_pid();
        let who = pids.iter().position(|p| *p == cur);
        match who {
            None => {
                // the kernel's turn: just tick on
                procs::switch(&mut m, &mut ctx);
            }
            Some(i) => {
                if eaten[i] {
                    procs::switch(&mut m, &mut ctx);
                    continue;
                }
                let (key, next) = match step[i] {
                    Step::Server => (100, Step::Left),
                    Step::Left => (i as u32, Step::Right),
                    Step::Right => (((i + 1) % 5) as u32, Step::Eaten),
                    Step::Eaten => unreachable!(),
                };
                procs::sem_wait(&mut m, key, &mut ctx);
                step[i] = next;
                if next == Step::Eaten {
                    eaten[i] = true;
                    // put both chopsticks back and leave the table
                    procs::sem_signal(&mut m, i as u32, &mut ctx);
                    procs::sem_signal(&mut m, ((i + 1) % 5) as u32, &mut ctx);
                    procs::sem_signal(&mut m, 100, &mut ctx);
                }
                if m.get_pid() != cur {
                    continue;
                }
                procs::switch(&mut m, &mut ctx);
            }
        }
    }
    assert!(eaten.iter().all(|e| *e), "every philosopher eats within the bound");
}
