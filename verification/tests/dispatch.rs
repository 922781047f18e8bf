use ysos::context::ProcessContext;
use ysos::heap::HEAP_START;
use ysos::input;
use ysos::manager::BootInfo;
use ysos::manager::ProcessManager;
use ysos::procs;
use ysos::runtime::Time;
use ysos::runtime::UefiRuntime;
use ysos::syscall::SyscallRequest;
use ysos::syscall::dispatcher;

fn boot() -> ProcessManager {
    let boot = BootInfo { kernel_pages: 64, free_frames: 4096, app_list: vec![] };
    procs::init(boot, input::init())
}

fn call(n: u64, a0: u64, a1: u64, a2: u64) -> ProcessContext {
    let mut ctx = ProcessContext::empty();
    ctx.rax = n;
    ctx.rdi = a0;
    ctx.rsi = a1;
    ctx.rdx = a2;
    ctx
}

#[test]
fn dispatcher_answers_get_pid_and_time() {
    let mut m = boot();
    let rt = UefiRuntime::new(Time { hour: 1, minute: 2, second: 3 });
    let mut ctx = call(2, 0, 0, 0);
    assert_eq!(dispatcher(&mut m, &rt, &mut ctx), SyscallRequest::Handled);
    assert_eq!(ctx.rax, 1);
    let mut ctx = call(15, 0, 0, 0);
    assert_eq!(dispatcher(&mut m, &rt, &mut ctx), SyscallRequest::Handled);
    assert_eq!(ctx.rax, 3600 + 120 + 3);
}

#[test]
fn dispatcher_moves_the_break() {
    let mut m = boot();
    let rt = UefiRuntime::new(Time { hour: 0, minute: 0, second: 0 });
    let mut ctx = call(3, 0, 0, 0);
    assert_eq!(dispatcher(&mut m, &rt, &mut ctx), SyscallRequest::Handled);
    assert_eq!(ctx.rax, HEAP_START);
    let mut ctx = call(3, HEAP_START + 4096, 0, 0);
    assert_eq!(dispatcher(&mut m, &rt, &mut ctx), SyscallRequest::Handled);
    assert_eq!(ctx.rax, HEAP_START + 4096);
    // an out-of-range break answers -1
    let mut ctx = call(3, 42, 0, 0);
    assert_eq!(dispatcher(&mut m, &rt, &mut ctx), SyscallRequest::Handled);
    assert_eq!(ctx.rax as i64, -1);
}

#[test]
fn dispatcher_hands_pointer_calls_back() {
    let mut m = boot();
    let rt = UefiRuntime::new(Time { hour: 0, minute: 0, second: 0 });
    let mut ctx = call(0, 1, 0x5000, 16);
    assert_eq!(
        dispatcher(&mut m, &rt, &mut ctx),
        SyscallRequest::ReadInto { fd: 1, ptr: 0x5000, len: 16 }
    );
    let mut ctx = call(1, 2, 0x6000, 8);
    assert_eq!(
        dispatcher(&mut m, &rt, &mut ctx),
        SyscallRequest::WriteFrom { fd: 2, ptr: 0x6000, len: 8 }
    );
    let mut ctx = call(4, 0x7000, 7, 0);
    assert_eq!(
        dispatcher(&mut m, &rt, &mut ctx),
        SyscallRequest::SpawnPath { ptr: 0x7000, len: 7 }
    );
    let mut ctx = call(9, 0, 0, 0);
    assert_eq!(dispatcher(&mut m, &rt, &mut ctx), SyscallRequest::Stat);
    let mut ctx = call(10, 0, 0, 0);
    assert_eq!(dispatcher(&mut m, &rt, &mut ctx), SyscallRequest::ListApp);
    let mut ctx = call(99, 0, 0, 0);
    assert_eq!(dispatcher(&mut m, &rt, &mut ctx), SyscallRequest::Unknown);
}

#[test]
fn dispatcher_runs_semaphores_and_fork() {
    let mut m = boot();
    let rt = UefiRuntime::new(Time { hour: 0, minute: 0, second: 0 });
    // new sem, signal, wait through the register interface
    let mut ctx = call(17, 0, 9, 1);
    assert_eq!(dispatcher(&mut m, &rt, &mut ctx), SyscallRequest::Handled);
    assert_eq!(ctx.rax, 0);
    let mut ctx = call(17, 3, 9, 0);
    assert_eq!(dispatcher(&mut m, &rt, &mut ctx), SyscallRequest::Handled);
    assert_eq!(ctx.rax, 0, "a free permit is taken without blocking");
    let mut ctx = call(17, 2, 9, 0);
    assert_eq!(dispatcher(&mut m, &rt, &mut ctx), SyscallRequest::Handled);
    assert_eq!(ctx.rax, 0);
    let mut ctx = call(17, 1, 9, 0);
    assert_eq!(dispatcher(&mut m, &rt, &mut ctx), SyscallRequest::Handled);
    assert_eq!(ctx.rax, 0);
    // fork through the register interface: the child runs with rax zero
    let mut ctx = call(16, 0, 0, 0);
    ctx.rsp = 0xffff_ff01_ffff_fff8;
    assert_eq!(dispatcher(&mut m, &rt, &mut ctx), SyscallRequest::Handled);
    assert_eq!(ctx.rax, 0);
    assert!(m.get_pid().0 > 1);
}
