//! Queries that a terminal passes on.
use espelho::VtQuery;
use tear::inproc::InProcess;
use tear::pane_grid::PaneGrid;

const CATALOG: [VtQuery; 6] = [
    VtQuery::CursorPosition,
    VtQuery::DeviceStatus,
    VtQuery::PrimaryDeviceAttributes,
    VtQuery::TerminalVersion,
    VtQuery::OscForeground,
    VtQuery::OscBackground,
];

fn catalog_index(q: VtQuery) -> usize {
    match q {
        VtQuery::CursorPosition => 0,
        VtQuery::DeviceStatus => 1,
        VtQuery::PrimaryDeviceAttributes => 2,
        VtQuery::TerminalVersion => 3,
        VtQuery::OscForeground => 4,
        VtQuery::OscBackground => 5,
    }
}

fn realistic_streams(q: VtQuery) -> Vec<Vec<u8>> {
    let w = q.wire();
    vec![
        w.to_vec(),
        [b"\x1b[1;32muser@host\x1b[0m $ ".as_slice(), w, b" ls\r\n"].concat(),
        [b"\x1b[?1049h\x1b[2J\x1b[H".as_slice(), w, b"\x1b[?1049l"].concat(),
        CATALOG.iter().flat_map(|o| o.wire().to_vec()).collect(),
        [b"\x1b".as_slice(), w].concat(),
    ]
}

#[test]
fn catalog_is_exhaustive() {
    let all: Vec<u8> = CATALOG.iter().flat_map(|q| q.wire().to_vec()).collect();
    let mut cursor = 0;
    let mut found = Vec::new();
    while let Some((q, end)) = VtQuery::scan(&all, cursor) {
        found.push(q);
        cursor = end;
    }
    assert_eq!(found.as_slice(), CATALOG.as_slice());
}

#[test]
fn catalog_index_matches_catalog_order() {
    for (i, q) in CATALOG.iter().enumerate() {
        assert_eq!(
            catalog_index(*q),
            i,
            "{q:?} is at CATALOG[{i}] but catalog_index says {}",
            catalog_index(*q)
        );
    }
    assert_eq!(CATALOG.len(), 6);
}

#[test]
fn pane_grid_never_panics_on_any_prefix_of_query_streams() {
    for q in CATALOG {
        for stream in realistic_streams(q) {
            for end in 0..=stream.len() {
                let mut grid = PaneGrid::new(80, 24);
                grid.feed(&stream[..end]);
                let _ = grid.snapshot();
            }
            let mut grid = PaneGrid::new(80, 24);
            for b in &stream {
                grid.feed(std::slice::from_ref(b));
            }
            let _ = grid.snapshot();
        }
    }
}

#[test]
fn query_wires_leave_no_residue_in_rendered_text() {
    for q in CATALOG {
        let mut grid = PaneGrid::new(80, 24);
        grid.feed(b"before|");
        grid.feed(q.wire());
        grid.feed(b"|after");
        let snap = grid.snapshot();
        let row0 = snap.to_text_rows().into_iter().next().unwrap_or_default();
        assert!(
            row0.trim_end() == "before||after",
            "query {q:?} left residue in the grid: {row0:?}"
        );
    }
}

#[test]
fn every_reader_gets_the_bytes_of_a_query() {
    let mut mux = InProcess::new();
    let (_, plan) = mux.new_session("relay", "/bin/cat", Vec::new(), 1);
    assert!(mux.spawned(plan.pane));
    let a = mux.subscribe_pane_bytes(plan.pane).unwrap();
    let b = mux.subscribe_pane_bytes(plan.pane).unwrap();
    for q in CATALOG {
        assert_eq!(mux.on_bytes(plan.pane, q.wire()), vec![a.token, b.token]);
    }
}
