use ysos::context::ProcessContext;
use ysos::input;
use ysos::manager::BootInfo;
use ysos::manager::ProcessManager;
use ysos::pid::ProcessId;
use ysos::process::ProgramStatus;
use ysos::procs;
use ysos::service;
use ysos::vm::ElfImage;

fn boot() -> ProcessManager {
    let boot = BootInfo { kernel_pages: 64, free_frames: 4096, app_list: vec![] };
    procs::init(boot, input::init())
}

fn elf() -> ElfImage {
    ElfImage { entry: 0x40_0000, pages: 4 }
}

#[test]
fn kill_of_an_unknown_pid_changes_nothing() {
    let mut m = boot();
    let free0 = m.frames.free;
    m.kill(ProcessId(42), -1);
    assert_eq!(service::sys_list_process(&m), vec![(1u16, ProgramStatus::Running)]);
    assert_eq!(m.frames.free, free0);
}

#[test]
fn kill_of_a_dead_pid_changes_nothing() {
    let mut m = boot();
    let pid = m.spawn(&elf(), "a".to_string(), None).unwrap();
    m.kill(pid, 1);
    let free0 = m.frames.free;
    m.kill(pid, 2);
    assert_eq!(m.get_exit_code(pid), Some(1));
    assert_eq!(m.frames.free, free0);
}

#[test]
fn kill_removes_a_ready_process_and_frees_its_frames() {
    let mut m = boot();
    let free0 = m.frames.free;
    let pid = m.spawn(&elf(), "a".to_string(), None).unwrap();
    assert!(m.frames.free < free0);
    m.kill(pid, 7);
    let table = service::sys_list_process(&m);
    assert!(table.contains(&(pid.0, ProgramStatus::Dead)));
    assert_eq!(m.get_exit_code(pid), Some(7));
    assert_eq!(m.frames.free, free0);
    assert!(!m.ready_queue.contains(&pid));
    // the timer tick never schedules the killed process
    let mut ctx = ProcessContext::empty();
    procs::switch(&mut m, &mut ctx);
    assert_eq!(m.get_pid(), ProcessId(1));
}

#[test]
fn kill_wakes_the_processes_waiting_on_the_victim() {
    let mut m = boot();
    let child = m.spawn(&elf(), "c".to_string(), None).unwrap();
    let mut ctx = ProcessContext::empty();
    // the kernel waits on the child; the CPU switches to the child
    procs::wait_pid(&mut m, child, &mut ctx);
    assert_eq!(m.get_pid(), child);
    m.kill(child, 3);
    let table = service::sys_list_process(&m);
    assert!(table.contains(&(child.0, ProgramStatus::Dead)));
    assert!(table.contains(&(1u16, ProgramStatus::Ready)));
    // the woken waiter reads the exit code from its saved return register
    let kernel = m.find_proc(ProcessId(1)).unwrap();
    assert_eq!(m.processes[kernel].read().context.rax, 3);
}

#[test]
fn kill_cancels_a_semaphore_wait_and_returns_the_permit() {
    let mut m = boot();
    let pid = m.spawn(&elf(), "w".to_string(), None).unwrap();
    let mut ctx = ProcessContext::empty();
    assert_eq!(procs::new_sem(&mut m, 9, 0), 0);
    // hand the CPU to the spawned process and let it wait on the empty
    // semaphore; it blocks and the CPU returns to the kernel
    procs::switch(&mut m, &mut ctx);
    assert_eq!(m.get_pid(), pid);
    procs::sem_wait(&mut m, 9, &mut ctx);
    assert_eq!(m.get_pid(), ProcessId(1));
    let free_blocked = m.frames.free;
    m.kill(pid, -9);
    let table = service::sys_list_process(&m);
    assert!(table.contains(&(pid.0, ProgramStatus::Dead)));
    assert!(m.frames.free > free_blocked);
    // the cancelled wait left the queue empty and gave its permit back
    let entry = m.semaphores.sems.iter().find(|e| e.0 == 9).unwrap();
    assert_eq!(entry.1.count, 0);
    assert_eq!(entry.1.waiters.len(), 0);
}
