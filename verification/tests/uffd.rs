use sandbox_runtime::vm::uffd::{
    handshake_text, judge_copy, serve_fault, CopyResult, CopyVerdict, FaultAction,
    GuestRegionUffdMapping, HandlerAction, PageServer, UffdEvent,
};

fn region(base: u64, size: usize, offset: u64) -> GuestRegionUffdMapping {
    GuestRegionUffdMapping { base_host_virt_addr: base, size, offset, page_size: 4096 }
}

#[test]
fn regions_are_half_open() {
    let r = region(0x1000, 0x2000, 0);
    assert!(!r.contains(0xfff));
    assert!(r.contains(0x1000));
    assert!(r.contains(0x2fff));
    assert!(!r.contains(0x3000));
    assert!(!region(0x1000, 0, 0).contains(0x1000));
}

#[test]
fn serves_the_page_of_a_fault() {
    let regions = [region(0x10000, 0x3000, 0), region(0x40000, 0x2000, 0x3000)];
    assert_eq!(
        serve_fault(&regions, 4096, 0x11fff),
        FaultAction::Copy { src_offset: 0x1000, dst: 0x11000, len: 4096 }
    );
    assert_eq!(
        serve_fault(&regions, 4096, 0x41001),
        FaultAction::Copy { src_offset: 0x4000, dst: 0x41000, len: 4096 }
    );
}

#[test]
fn copies_stay_within_the_file() {
    let regions = [region(0x10000, 0x3000, 0), region(0x40000, 0x2000, 0x3000)];
    for r in regions {
        let base = r.base_host_virt_addr as usize;
        for addr in base..base + r.size {
            match serve_fault(&regions, 4096, addr) {
                FaultAction::Copy { src_offset, dst, len } => {
                    assert!(src_offset + len <= 0x5000);
                    assert!(dst <= addr && addr < dst + len);
                    assert_eq!(dst % len, 0);
                }
                other => panic!("{:?}", other),
            }
        }
    }
}

#[test]
fn the_first_region_counts() {
    let regions = [region(0x10000, 0x1000, 0x7000), region(0x10000, 0x2000, 0)];
    assert_eq!(
        serve_fault(&regions, 4096, 0x10010),
        FaultAction::Copy { src_offset: 0x7000, dst: 0x10000, len: 4096 }
    );
}

#[test]
fn faults_outside_are_not_served() {
    let regions = [region(0x10000, 0x1000, 0)];
    assert_eq!(
        serve_fault(&regions, 4096, 0x20123),
        FaultAction::Unmapped { page_addr: 0x20000 }
    );
    assert_eq!(serve_fault(&[], 4096, 0x20123), FaultAction::Unmapped { page_addr: 0x20000 });
    let odd = [region(0x10010, 0x1000, 0)];
    assert_eq!(serve_fault(&odd, 4096, 0x10020), FaultAction::Unmapped { page_addr: 0x10000 });
}

#[test]
fn addresses_that_do_not_fit_are_told() {
    assert_eq!(serve_fault(&[region(0, 1, 0)], 0, 0), FaultAction::Overflow);
    let high = region(u64::MAX - 0xfff, 0x2000, 0);
    assert_eq!(serve_fault(&[high], 4096, usize::MAX), FaultAction::Overflow);
    assert_eq!(serve_fault(&[high], 4096, 0), FaultAction::Unmapped { page_addr: 0 });
    let far = region(0x1000, 0x3000, u64::MAX - 0xfff);
    assert_eq!(serve_fault(&[far], 4096, 0x2000), FaultAction::Overflow);
}

#[test]
fn the_first_region_gives_the_page_size() {
    assert!(PageServer::from_handshake(vec![]).is_none());
    let huge = GuestRegionUffdMapping { page_size: 0x200000, ..region(0, 0x400000, 0) };
    let server = PageServer::from_handshake(vec![huge, region(0x800000, 0x1000, 0)]).unwrap();
    assert_eq!(server.page_size, 0x200000);
    assert_eq!(
        server.on_event(UffdEvent::Pagefault(0x234567)),
        HandlerAction::Serve(FaultAction::Copy {
            src_offset: 0x200000,
            dst: 0x200000,
            len: 0x200000
        })
    );
}

#[test]
fn other_events_are_passed_over() {
    let server = PageServer::from_handshake(vec![region(0, 0x1000, 0)]).unwrap();
    assert_eq!(server.on_event(UffdEvent::Other), HandlerAction::ReadEvent);
    assert_eq!(server.on_event(UffdEvent::NotReady), HandlerAction::ReadEvent);
}

#[test]
fn judges_copies() {
    assert_eq!(judge_copy(CopyResult::Copied(4096)), CopyVerdict::Served);
    assert_eq!(judge_copy(CopyResult::Copied(0)), CopyVerdict::Empty);
    assert_eq!(judge_copy(CopyResult::Refused(Some(libc::EEXIST))), CopyVerdict::Served);
    assert_eq!(judge_copy(CopyResult::Refused(Some(17))), CopyVerdict::Served);
    assert_eq!(judge_copy(CopyResult::Refused(Some(libc::ENOENT))), CopyVerdict::Broken);
    assert_eq!(judge_copy(CopyResult::Refused(None)), CopyVerdict::Broken);
    assert_eq!(judge_copy(CopyResult::Failed), CopyVerdict::Broken);
}

#[test]
fn handshakes_are_text() {
    assert_eq!(handshake_text(b"[]\0\0", 2), Some("[]".to_string()));
    assert_eq!(handshake_text("\u{e9}!".as_bytes(), 9), Some("\u{e9}!".to_string()));
    assert_eq!(handshake_text("\u{e9}!".as_bytes(), 1), None);
    assert_eq!(handshake_text(b"\xed\xa0\x80", 3), None);
    assert_eq!(handshake_text(b"\xc0\x80", 2), None);
    assert_eq!(handshake_text(b"\xf4\x90\x80\x80", 4), None);
    assert_eq!(handshake_text(b"", 0), Some(String::new()));
}
