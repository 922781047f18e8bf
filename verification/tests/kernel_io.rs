use ysos::clock::ClockCounter;
use ysos::clock::inc_counter;
use ysos::clock::read_counter;
use ysos::data::ProcessData;
use ysos::grow_stack;
use ysos::input;
use ysos::input::buffered_keys;
use ysos::input::pop_key;
use ysos::input::push_key;
use ysos::input::try_pop_key;
use ysos::resource::FileContent;
use ysos::runtime::Time;
use ysos::runtime::UefiRuntime;
use ysos::service::sys_time;

#[test]
fn input_buffer_is_fifo() {
    let mut buf = input::init();
    assert_eq!(try_pop_key(&mut buf), None);
    push_key(&mut buf, b'l');
    push_key(&mut buf, b'a');
    push_key(&mut buf, b'\n');
    assert_eq!(buffered_keys(&buf), 3);
    assert_eq!(pop_key(&mut buf), b'l');
    assert_eq!(pop_key(&mut buf), b'a');
    assert_eq!(try_pop_key(&mut buf), Some(b'\n'));
    assert_eq!(try_pop_key(&mut buf), None);
}

#[test]
fn input_buffer_drops_keys_beyond_capacity() {
    let mut buf = input::init();
    for i in 0..200u32 {
        push_key(&mut buf, (i % 251) as u8);
    }
    assert_eq!(buffered_keys(&buf), 128);
    assert_eq!(try_pop_key(&mut buf), Some(0));
}

#[test]
fn env_lookup_and_shadowing() {
    let mut data = ProcessData::new();
    assert_eq!(data.env("id"), None);
    data.set_env("id", "3");
    assert_eq!(data.env("id"), Some("3".to_string()));
    data.set_env("id", "4");
    assert_eq!(data.env("id"), Some("4".to_string()));
    data.set_env("home", "/");
    assert_eq!(data.env("id"), Some("4".to_string()));
    assert_eq!(data.env("home"), Some("/".to_string()));
}

#[test]
fn descriptor_table_reads_files_and_console() {
    let mut data = ProcessData::new();
    let mut buf: Vec<u8> = Vec::new();
    let mut input = input::init();
    // stdin is empty: a read returns zero bytes rather than blocking
    assert_eq!(data.read(0, 8, &mut buf, &mut input), 0);
    // queued keys come back through fd 0
    push_key(&mut input, b'h');
    push_key(&mut input, b'i');
    assert_eq!(data.read(0, 8, &mut buf, &mut input), 2);
    assert_eq!(buf, b"hi".to_vec());
    // console writes report their length; stdin rejects writes
    assert_eq!(data.write(1, &b"out".to_vec()), 3);
    assert_eq!(data.write(2, &b"err".to_vec()), 3);
    assert_eq!(data.write(0, &b"x".to_vec()), -1);
    assert_eq!(data.write(77, &b"x".to_vec()), -1);
    // the smallest free descriptor from 3 up
    let fd = data.open_file(FileContent::new(b"hello world".to_vec()));
    assert_eq!(fd, 3);
    assert_eq!(data.read(fd, 5, &mut buf, &mut input), 5);
    assert_eq!(buf, b"hello".to_vec());
    assert_eq!(data.read(fd, 100, &mut buf, &mut input), 6);
    assert_eq!(buf, b" world".to_vec());
    assert_eq!(data.read(fd, 100, &mut buf, &mut input), 0);
    assert!(data.close_file(fd));
    assert!(!data.close_file(fd));
    // an unknown descriptor reads zero bytes
    assert_eq!(data.read(fd, 4, &mut buf, &mut input), 0);
}

#[test]
fn forked_data_is_a_deep_copy() {
    let mut data = ProcessData::new();
    data.set_env("id", "1");
    let fd = data.open_file(FileContent::new(b"abc".to_vec()));
    let mut child = data.duplicate();
    assert_eq!(child.env("id"), Some("1".to_string()));
    let mut buf: Vec<u8> = Vec::new();
    let mut input = input::init();
    // the child's cursor moves independently of the parent's
    assert_eq!(child.read(fd, 2, &mut buf, &mut input), 2);
    assert_eq!(buf, b"ab".to_vec());
    assert_eq!(data.read(fd, 3, &mut buf, &mut input), 3);
    assert_eq!(buf, b"abc".to_vec());
}

#[test]
fn tick_counter_counts() {
    let mut c = ClockCounter::start();
    assert_eq!(read_counter(&c), 0);
    assert_eq!(inc_counter(&mut c), 0);
    assert_eq!(inc_counter(&mut c), 1);
    assert_eq!(read_counter(&c), 2);
}

#[test]
fn firmware_time_in_seconds() {
    let rt = UefiRuntime::new(Time { hour: 2, minute: 3, second: 4 });
    assert_eq!(sys_time(&rt), 2 * 3600 + 3 * 60 + 4);
    assert_eq!(rt.get_time(), Time { hour: 2, minute: 3, second: 4 });
}

#[test]
fn stack_pattern_smoke_test() {
    assert!(grow_stack());
}
