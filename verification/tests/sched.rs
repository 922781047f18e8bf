use ysos::context::ProcessContext;
use ysos::input;
use ysos::manager::AppEntry;
use ysos::manager::BootInfo;
use ysos::manager::ProcessManager;
use ysos::pid::ProcessId;
use ysos::process::ProgramStatus;
use ysos::procs;
use ysos::service;
use ysos::vm::ElfImage;

fn boot(apps: Vec<AppEntry>) -> ProcessManager {
    let boot = BootInfo { kernel_pages: 64, free_frames: 4096, app_list: apps };
    procs::init(boot, input::init())
}

fn shell_app() -> Vec<AppEntry> {
    vec![AppEntry { name: "sh".to_string(), elf: ElfImage { entry: 0x40_0000, pages: 4 } }]
}

#[test]
fn boot_leaves_the_kernel_running() {
    let m = boot(vec![]);
    assert_eq!(m.get_pid(), ProcessId(1));
    let table = service::sys_list_process(&m);
    assert_eq!(table, vec![(1u16, ProgramStatus::Running)]);
}

#[test]
fn spawn_enqueues_a_ready_child_and_switch_runs_it() {
    let mut m = boot(shell_app());
    let apps = service::sys_list_app(&m);
    assert_eq!(apps, vec!["sh".to_string()]);
    let elf = m.app_list()[0].elf;
    let pid = m.spawn(&elf, "sh".to_string(), None).unwrap();
    assert!(pid.0 > 1);
    let table = service::sys_list_process(&m);
    assert!(table.contains(&(1u16, ProgramStatus::Running)));
    assert!(table.contains(&(pid.0, ProgramStatus::Ready)));
    // the timer tick hands the CPU to the spawned process
    let mut ctx = ProcessContext::empty();
    procs::switch(&mut m, &mut ctx);
    assert_eq!(m.get_pid(), pid);
    assert_eq!(ctx.rip, 0x40_0000);
    let table2 = service::sys_list_process(&m);
    assert!(table2.contains(&(pid.0, ProgramStatus::Running)));
    assert!(table2.contains(&(1u16, ProgramStatus::Ready)));
}

#[test]
fn fork_gives_child_zero_and_parent_the_child_pid() {
    let mut m = boot(vec![]);
    let mut ctx = ProcessContext::empty();
    ctx.init_stack_frame(0x1234, 0xffff_ff01_ffff_fff8);
    let child = service::sys_fork(&mut m, &mut ctx).unwrap();
    assert!(child.0 > 0);
    // the child was enqueued first and the queue was empty: it runs now,
    // with a zeroed return register
    assert_eq!(m.get_pid(), child);
    assert_eq!(ctx.rax, 0);
    // child exits with 42; the CPU goes back to the parent
    procs::exit(&mut m, 42, &mut ctx);
    assert_eq!(m.get_pid(), ProcessId(1));
    // the parent's resumed frame carries the child pid
    assert_eq!(ctx.rax, child.0 as u64);
    // the dead child keeps its exit code for WaitPid
    procs::wait_pid(&mut m, child, &mut ctx);
    assert_eq!(ctx.rax, 42);
}

#[test]
fn wait_pid_blocks_until_the_child_exits() {
    let mut m = boot(vec![]);
    let mut ctx = ProcessContext::empty();
    ctx.init_stack_frame(0x1234, 0xffff_ff01_ffff_fff8);
    let child = service::sys_fork(&mut m, &mut ctx).unwrap();
    assert_eq!(m.get_pid(), child);
    // child yields on a timer tick; the parent runs again
    procs::switch(&mut m, &mut ctx);
    assert_eq!(m.get_pid(), ProcessId(1));
    // parent waits on the live child and blocks; the child runs
    procs::wait_pid(&mut m, child, &mut ctx);
    assert_eq!(m.get_pid(), child);
    let table = service::sys_list_process(&m);
    assert!(table.contains(&(1u16, ProgramStatus::Blocked)));
    // child exits: the parent is woken with the exit code in its frame
    procs::exit(&mut m, 99, &mut ctx);
    assert_eq!(m.get_pid(), ProcessId(1));
    assert_eq!(ctx.rax, 99);
    assert!(!service::still_alive(&m, child));
}

#[test]
fn wait_pid_on_unknown_pid_fails() {
    let mut m = boot(vec![]);
    let mut ctx = ProcessContext::empty();
    procs::wait_pid(&mut m, ProcessId(999), &mut ctx);
    assert_eq!(ctx.rax, u64::MAX);
}

#[test]
fn page_fault_grows_the_stack_inside_the_slot() {
    let mut m = boot(shell_app());
    let elf = m.app_list()[0].elf;
    let pid = m.spawn(&elf, "sh".to_string(), None).unwrap();
    let mut ctx = ProcessContext::empty();
    procs::switch(&mut m, &mut ctx);
    assert_eq!(m.get_pid(), pid);
    // the spawned process's slot base (one page mapped at its top)
    let slot_size: u64 = 0x100000 * 0x1000;
    let slot_top: u64 = 0x4000_0000_0000 - (pid.0 as u64 - 1) * slot_size;
    // writing 64 KiB below the initial top faults and succeeds
    assert!(procs::handle_page_fault(&mut m, slot_top - 8 - 64 * 1024, false));
    // a protection violation is fatal
    assert!(!procs::handle_page_fault(&mut m, slot_top - 8, true));
    // one byte below the slot is fatal
    let slot_base = slot_top - slot_size;
    assert!(!procs::handle_page_fault(&mut m, slot_base - 1, false));
}

#[test]
fn stack_auto_grow_covers_a_large_frame() {
    // a 128 KiB on-stack array: the fault at its lowest page maps every
    // missing page; the code segment stays untouched
    let mut m = boot(shell_app());
    let elf = m.app_list()[0].elf;
    let pid = m.spawn(&elf, "sh".to_string(), None).unwrap();
    let mut ctx = ProcessContext::empty();
    procs::switch(&mut m, &mut ctx);
    let slot_size: u64 = 0x100000 * 0x1000;
    let slot_top: u64 = 0x4000_0000_0000 - (pid.0 as u64 - 1) * slot_size;
    let mut addr = slot_top - 8 - 64;
    let bottom = slot_top - 8 - 128 * 1024;
    while addr > bottom {
        assert!(procs::handle_page_fault(&mut m, addr, false));
        addr -= 64;
    }
    assert!(procs::handle_page_fault(&mut m, bottom, false));
    let i = m.find_proc(pid).unwrap();
    let proc_rec = &m.processes[i];
    let vm = proc_rec.read().vm();
    assert!(vm.stack.usage >= 32);
    assert_eq!(vm.code_pages, 4);
}

#[test]
fn exit_reclaims_every_frame() {
    let mut m = boot(shell_app());
    let free_at_boot = m.frames.free;
    let elf = m.app_list()[0].elf;
    let _pid = m.spawn(&elf, "sh".to_string(), None).unwrap();
    assert_eq!(m.frames.free, free_at_boot - 4 - 1);
    let mut ctx = ProcessContext::empty();
    procs::switch(&mut m, &mut ctx);
    procs::handle_page_fault(&mut m, 0x4000_0000_0000 - (2u64 - 1) * 0x100000 * 0x1000, false);
    procs::exit(&mut m, 0, &mut ctx);
    assert_eq!(m.frames.free, free_at_boot);
}
