use samp_cmd_helper::cppstd::{StdString, StdStringData, StdVector};
use samp_cmd_helper::sampfuncs::{ScmThread, SfPluginInfo};

fn inline_string(text: &[u8]) -> StdString {
    assert!(text.len() < 16);
    let mut buf = vec![0u8; 16];
    buf[..text.len()].copy_from_slice(text);
    StdString {
        data: StdStringData::Inline { buf },
        size: text.len() as u32,
        capacity: 15,
    }
}

fn heap_string(text: &[u8]) -> StdString {
    StdString {
        data: StdStringData::Heap {
            bytes: text.to_vec(),
        },
        size: text.len() as u32,
        capacity: text.len() as u32,
    }
}

#[test]
fn zero_length_foreign_array_yields_empty_terminating_sequence() {
    let v = StdVector {
        first: 0x1000,
        last: 0x1000,
        end: 0x1000,
        elem_size: 20,
    };
    assert_eq!(v.len(), 0);
    assert_eq!(v.capacity(), 0);
    assert!(v.element_addresses().is_empty());
    let mut it = v.iter();
    assert_eq!(it.next(), None);
    assert_eq!(it.next(), None);
}

#[test]
fn foreign_array_walks_each_element_address_once() {
    let v = StdVector {
        first: 100,
        last: 160,
        end: 200,
        elem_size: 20,
    };
    assert_eq!(v.len(), 3);
    assert_eq!(v.capacity(), 5);
    assert_eq!(v.element_addresses(), vec![100, 120, 140]);
    let mut it = v.iter();
    assert_eq!(it.next(), Some(100));
    assert_eq!(it.next(), Some(120));
    assert_eq!(it.next(), Some(140));
    assert_eq!(it.next(), None);
}

#[test]
fn inline_string_decodes_up_to_its_null() {
    assert_eq!(inline_string(b"hi").to_string(), "hi");
    assert_eq!(inline_string(b"").to_string(), "");
    assert_eq!(inline_string(b"fifteen-chars..").to_string(), "fifteen-chars..");
}

#[test]
fn decode_stops_at_first_interior_null() {
    let mut buf = vec![0u8; 16];
    buf[0] = b'a';
    buf[1] = 0;
    buf[2] = b'b';
    let s = StdString {
        data: StdStringData::Inline { buf },
        size: 3,
        capacity: 15,
    };
    assert_eq!(s.to_string(), "a");
}

#[test]
fn inline_and_out_of_line_storage_decode_equally() {
    let cases: [&[u8]; 3] = [b"", b"x", b"fourteen-chars"];
    for text in cases {
        assert_eq!(inline_string(text).to_string(), heap_string(text).to_string());
    }
}

#[test]
fn invalid_sequences_are_replaced_never_fatal() {
    let s = heap_string(&[0xFF, b'A']);
    assert_eq!(s.to_string(), "\u{FFFD}A");
}

#[test]
fn long_out_of_line_string_decodes_in_full() {
    let text = b"a-rather-long-command-name-beyond-inline-storage";
    assert_eq!(heap_string(text).to_string(), "a-rather-long-command-name-beyond-inline-storage");
}

#[test]
fn thread_name_reads_the_fixed_field() {
    let t = ScmThread {
        next: 0,
        prev: 0,
        thread_name: b"main\0\0\0\0".to_vec(),
    };
    assert_eq!(t.thread_name(), "main");
}

#[test]
fn plugin_name_decodes_the_declared_name() {
    let p = SfPluginInfo {
        handle: 0x400000,
        name: inline_string(b"MyPlug"),
    };
    assert_eq!(p.plugin_name(), "MyPlug");
}
