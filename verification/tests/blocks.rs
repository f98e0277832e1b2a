//! Blocks of a shell session.
use tear::blocks::{parse_exit_code, BlockExtractor};
use tear::yurai::Yurai;

#[test]
fn idle_extractor_drops_prints() {
    let mut bx = BlockExtractor::default();
    bx.on_print('x');
    assert!(bx.is_empty());
    assert!(bx.current().is_none());
}

#[test]
fn full_block_lifecycle_captures_all_phases() {
    let mut bx = BlockExtractor::default();
    bx.on_osc_133("A");
    for c in "$ ".chars() {
        bx.on_print(c);
    }
    bx.on_osc_133("B");
    for c in "ls".chars() {
        bx.on_print(c);
    }
    bx.on_osc_133("C");
    for c in "a b c".chars() {
        bx.on_print(c);
    }
    bx.on_osc_133("D;0");

    assert_eq!(bx.len(), 1);
    let b = bx.iter().into_iter().next().unwrap();
    assert_eq!(b.prompt, "$ ");
    assert_eq!(b.command, "ls");
    assert_eq!(b.output, "a b c");
    assert_eq!(b.exit_code, Some(0));
    assert!(b.ended_at_unix_ms.is_some());
    assert_eq!(b.index, 0);
    assert!(bx.current().is_none());
}

#[test]
fn exit_code_optional_when_d_marker_omits_it() {
    let mut bx = BlockExtractor::default();
    bx.on_osc_133("A");
    bx.on_osc_133("B");
    bx.on_osc_133("C");
    bx.on_osc_133("D");
    let b = bx.iter().into_iter().next().unwrap();
    assert_eq!(b.exit_code, None);
}

#[test]
fn unfinished_block_is_orphaned_when_next_prompt_starts() {
    let mut bx = BlockExtractor::default();
    bx.on_osc_133("A");
    for c in "p1".chars() {
        bx.on_print(c);
    }
    bx.on_osc_133("A");
    for c in "p2".chars() {
        bx.on_print(c);
    }
    bx.on_osc_133("B");
    bx.on_osc_133("C");
    bx.on_osc_133("D;0");

    assert_eq!(bx.len(), 2);
    let mut iter = bx.iter().into_iter();
    let first = iter.next().unwrap();
    let second = iter.next().unwrap();
    assert_eq!(first.prompt, "p1");
    assert_eq!(first.exit_code, None);
    assert_eq!(second.prompt, "p2");
    assert_eq!(second.exit_code, Some(0));
}

#[test]
fn blocks_ring_buffer_caps_at_max() {
    let mut bx = BlockExtractor::new(3);
    for i in 0..5 {
        bx.on_osc_133("A");
        for c in format!("p{i}").chars() {
            bx.on_print(c);
        }
        bx.on_osc_133("D;0");
    }
    assert_eq!(bx.len(), 3);
    let indices: Vec<u64> = bx.iter().into_iter().map(|b| b.index).collect();
    assert_eq!(indices, vec![2, 3, 4]);
}

#[test]
fn get_by_index_returns_block_or_none() {
    let mut bx = BlockExtractor::default();
    bx.on_osc_133("A");
    bx.on_osc_133("D;0");
    bx.on_osc_133("A");
    bx.on_osc_133("D;1");

    assert_eq!(bx.get(0).map(|b| b.exit_code), Some(Some(0)));
    assert_eq!(bx.get(1).map(|b| b.exit_code), Some(Some(1)));
    assert!(bx.get(99).is_none());
}

#[test]
fn osc7_cwd_stamped_onto_next_block() {
    let mut bx = BlockExtractor::default();
    bx.set_cwd_from_osc7("file://localhost/Users/me/code");
    bx.on_osc_133("A");
    bx.on_osc_133("D;0");
    let b = bx.iter().into_iter().next().unwrap();
    assert_eq!(b.cwd.as_deref(), Some("/Users/me/code"));
}

#[test]
fn osc7_without_file_scheme_passes_through_verbatim() {
    let mut bx = BlockExtractor::default();
    bx.set_cwd_from_osc7("/tmp/raw-path");
    assert_eq!(bx.current_cwd(), Some("/tmp/raw-path"));
}

#[test]
fn parse_exit_code_handles_typical_shapes() {
    assert_eq!(parse_exit_code("D"), None);
    assert_eq!(parse_exit_code("D;"), None);
    assert_eq!(parse_exit_code("D;0"), Some(0));
    assert_eq!(parse_exit_code("D;127"), Some(127));
    assert_eq!(parse_exit_code("D ; 130"), Some(130));
}

fn one_block(ex: &mut BlockExtractor) {
    ex.on_osc_133("A");
    ex.on_osc_133("B");
    for c in "echo hi".chars() {
        ex.on_print(c);
    }
    ex.on_osc_133("C");
    ex.on_osc_133("D;0");
}

#[test]
fn an_unstamped_extractor_mints_unknown_never_human() {
    let mut ex = BlockExtractor::new(8);
    one_block(&mut ex);
    assert_eq!(
        ex.get(0).unwrap().yurai,
        Yurai::Unknown,
        "an unattributed block must stay Unknown — defaulting to Human \
         would launder every agent-run command in the history"
    );
}

#[test]
fn a_stamped_extractor_marks_every_block_it_mints() {
    let mut ex = BlockExtractor::new(8);
    assert!(ex.stamp_yurai(Yurai::Automation {
        label: Some("agent-one".into())
    }));
    one_block(&mut ex);
    one_block(&mut ex);
    for i in 0..2 {
        assert!(
            ex.get(i).unwrap().yurai.is_automation(),
            "block {i} lost its attribution"
        );
    }
}

#[test]
fn re_stamping_is_refused_so_provenance_cannot_drift() {
    let mut ex = BlockExtractor::new(8);
    assert!(ex.stamp_yurai(Yurai::Automation { label: None }));
    assert!(
        !ex.stamp_yurai(Yurai::Human),
        "the second stamp must be REFUSED, not applied"
    );
    one_block(&mut ex);
    assert!(
        ex.get(0).unwrap().yurai.is_automation(),
        "an agent pane must not be able to relabel itself human"
    );
}


#[test]
fn a_finished_block_has_the_time_between_its_markers() {
    let mut bx = BlockExtractor::default();
    bx.on_osc_133_at("A", 1_000);
    bx.on_osc_133_at("B", 1_100);
    bx.on_osc_133_at("C", 1_200);
    assert_eq!(bx.current().unwrap().duration_ms(), None);
    bx.on_osc_133_at("D;3", 6_007);
    let b = bx.get(0).unwrap();
    assert_eq!(b.duration_ms(), Some(5_007));
    assert_eq!(b.exit_code, Some(3));
}

#[test]
fn exit_codes_take_signs_and_refuse_what_does_not_fit() {
    assert_eq!(parse_exit_code("D;-1"), Some(-1));
    assert_eq!(parse_exit_code("D;+7"), Some(7));
    assert_eq!(parse_exit_code("D;2147483647"), Some(2147483647));
    assert_eq!(parse_exit_code("D;2147483648"), None);
    assert_eq!(parse_exit_code("D;-2147483648"), Some(-2147483648));
    assert_eq!(parse_exit_code("D;1x"), None);
    assert_eq!(parse_exit_code("D;\u{a0}5\u{3000}"), Some(5));
}

#[test]
fn control_bytes_count_as_output_of_a_block() {
    let mut bx = BlockExtractor::default();
    bx.on_osc_133("A");
    bx.on_osc_133("C");
    bx.on_print('x');
    bx.on_raw_byte(b'\n');
    bx.on_print('y');
    bx.on_osc_133("D;0");
    assert_eq!(bx.get(0).unwrap().output, "x\ny");
}

#[test]
fn block_duration_ms_computes_on_finalize() {
    let mut bx = BlockExtractor::default();
    bx.on_osc_133("A");
    bx.on_osc_133("D;0");
    let b = bx.get(0).unwrap();
    let d = b.duration_ms().expect("finalized block has duration");
    assert!(d < 5_000, "absurd duration: {d}ms");
}

#[test]
fn an_extractor_for_no_blocks_keeps_none() {
    let mut bx = BlockExtractor::new(0);
    for _ in 0..3 {
        bx.on_osc_133("A");
        bx.on_osc_133("C");
        bx.on_print('x');
        bx.on_osc_133("D;0");
        assert!(bx.is_empty());
        assert!(bx.current().is_none());
    }
    bx.on_osc_133("A");
    assert_eq!(bx.current().unwrap().index, 3);
}

#[test]
fn the_indexes_of_a_history_follow_each_other() {
    let mut bx = BlockExtractor::new(3);
    for i in 0..7u64 {
        bx.on_osc_133("A");
        let kept: Vec<u64> = bx.iter().into_iter().map(|b| b.index).collect();
        assert_eq!(kept, (i.saturating_sub(3)..i).collect::<Vec<u64>>());
        assert_eq!(bx.current().unwrap().index, i);
        if i % 2 == 0 {
            bx.on_osc_133("D");
        }
        assert!(bx.iter().into_iter().all(|b| b.ended_at_unix_ms.is_some()));
        assert!(bx.len() <= 3);
    }
}

#[test]
fn the_open_block_carries_what_stood_at_its_prompt() {
    let mut bx = BlockExtractor::new(3);
    bx.set_cwd_from_osc7("file://host/a");
    bx.on_osc_133("A");
    bx.set_cwd_from_osc7("file://host/b");
    bx.stamp_yurai(Yurai::Human);
    bx.on_osc_133("C");
    let b = bx.current().unwrap();
    assert_eq!(b.cwd.as_deref(), Some("/a"));
    assert_eq!(b.yurai, Yurai::Unknown);
    assert_eq!(b.exit_code, None);
    assert_eq!(b.ended_at_unix_ms, None);
    bx.on_osc_133("D");
    assert!(bx.current().is_none());
    bx.on_osc_133("B");
    assert!(bx.current().is_none());
}

#[test]
fn a_block_is_found_by_its_index_after_older_ones_went() {
    let mut bx = BlockExtractor::new(2);
    for code in ["D;0", "D;1", "D;2"] {
        bx.on_osc_133("A");
        bx.on_osc_133(code);
    }
    assert!(bx.get(0).is_none());
    assert_eq!(bx.get(1).map(|b| b.exit_code), Some(Some(1)));
    assert_eq!(bx.get(2).map(|b| b.exit_code), Some(Some(2)));
}
