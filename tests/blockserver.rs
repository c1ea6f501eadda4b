use murmel_core::blockserver::{
    dispatch, wanted_items, DataServe, Handler, Inbound, InvKind, LocatorScan, TrunkWalk, WalkKind,
    BLOCKS_LIMIT, HEADERS_LIMIT, MAILBOX_DEPTH,
};

fn scan(on_trunk: &[bool]) -> (Option<usize>, Vec<usize>) {
    let mut s = LocatorScan::new(on_trunk.len());
    let mut asked = Vec::new();
    while let Some(i) = s.probe() {
        asked.push(i);
        s.answer(on_trunk[i]);
    }
    (s.matched, asked)
}

fn walk(kind: WalkKind, bodies: &[bool]) -> (Vec<usize>, bool) {
    let mut w = TrunkWalk::new(kind);
    let mut emitted = Vec::new();
    for (i, b) in bodies.iter().enumerate() {
        if !w.wants_position() {
            break;
        }
        if w.take(*b) {
            emitted.push(i);
            if kind == WalkKind::Blocks {
                w.delivered();
            }
        }
    }
    (emitted, w.sends_batch())
}

#[test]
fn dispatch_routes_requests() {
    assert_eq!(dispatch(Inbound::GetHeaders), Handler::Headers);
    assert_eq!(dispatch(Inbound::GetBlocks), Handler::Blocks);
    assert_eq!(dispatch(Inbound::GetData), Handler::Data);
    assert_eq!(dispatch(Inbound::OtherMessage), Handler::Skip);
    assert_eq!(dispatch(Inbound::Control), Handler::Skip);
    assert_eq!(dispatch(Inbound::Disconnected), Handler::Stop);
    assert_eq!(MAILBOX_DEPTH, 10);
}

#[test]
fn second_locator_used_when_first_off_trunk() {
    assert_eq!(scan(&[false, true]), (Some(1), vec![0, 1]));
}

#[test]
fn first_locator_on_trunk_wins() {
    assert_eq!(scan(&[true, true]), (Some(0), vec![0]));
}

#[test]
fn no_locator_on_trunk_matches_nothing() {
    assert_eq!(scan(&[false, false, false]), (None, vec![0, 1, 2]));
    assert_eq!(scan(&[]), (None, vec![]));
}

#[test]
fn headers_after_ancestor_in_order() {
    assert_eq!(walk(WalkKind::Headers, &[false; 5]), (vec![0, 1, 2, 3, 4], true));
}

#[test]
fn blocks_after_ancestor_in_order() {
    assert_eq!(walk(WalkKind::Blocks, &[true; 5]), (vec![0, 1, 2, 3, 4], false));
}

#[test]
fn blocks_without_body_are_skipped() {
    assert_eq!(walk(WalkKind::Blocks, &[true, false, true, false, true]), (vec![0, 2, 4], false));
}

#[test]
fn empty_walk_sends_no_headers() {
    assert_eq!(walk(WalkKind::Headers, &[]), (vec![], false));
}

#[test]
fn headers_capped() {
    let (emitted, batch) = walk(WalkKind::Headers, &vec![true; 2500]);
    assert_eq!(emitted.len(), 2000);
    assert_eq!(HEADERS_LIMIT, 2000);
    assert!(batch);
}

#[test]
fn blocks_capped() {
    let (emitted, _) = walk(WalkKind::Blocks, &vec![true; 800]);
    assert_eq!(emitted.len(), 500);
    assert_eq!(BLOCKS_LIMIT, 500);
}

#[test]
fn failed_fetch_ends_walk() {
    let mut w = TrunkWalk::new(WalkKind::Blocks);
    assert!(w.take(true));
    w.delivered();
    assert!(!w.take(false));
    assert!(w.take(true));
    assert!(!w.wants_position());
    w.fetch_failed();
    assert!(w.failed && !w.pending);
    assert!(!w.wants_position());
    assert_eq!(w.taken, 3);
}

#[test]
fn pending_fetch_blocks_next_position() {
    let mut w = TrunkWalk::new(WalkKind::Blocks);
    assert!(w.take(true));
    assert!(w.pending);
    assert!(!w.wants_position());
    w.delivered();
    assert!(w.wants_position());
}

#[test]
fn only_witness_blocks_wanted() {
    let kinds = vec![InvKind::Transaction, InvKind::WitnessBlock, InvKind::Block, InvKind::WitnessBlock];
    assert_eq!(wanted_items(&kinds), vec![1, 3]);
}

#[test]
fn non_witness_items_ignored() {
    let kinds = vec![InvKind::Block, InvKind::Error, InvKind::WitnessTransaction, InvKind::Transaction];
    assert!(wanted_items(&kinds).is_empty());
    assert!(wanted_items(&vec![]).is_empty());
}

fn serve(kinds: &[InvKind], found: &[bool], fail_at: Option<usize>) -> Vec<usize> {
    let mut d = DataServe::new(&kinds.to_vec());
    let mut sent = Vec::new();
    while let Some(i) = d.next_item() {
        if d.take(found[i]) {
            if fail_at == Some(i) {
                d.fetch_failed();
                assert!(d.failed && !d.pending);
                assert_eq!(d.next_item(), None);
                break;
            }
            sent.push(i);
            d.delivered();
        }
    }
    sent
}

#[test]
fn data_interleaved_matches_filtered() {
    let kinds = [InvKind::Transaction, InvKind::WitnessBlock, InvKind::Block, InvKind::WitnessBlock, InvKind::Error];
    let found = [true, true, true, true, true];
    assert_eq!(serve(&kinds, &found, None), vec![1, 3]);
    let filtered = [InvKind::WitnessBlock, InvKind::WitnessBlock];
    assert_eq!(serve(&filtered, &[true, true], None), vec![0, 1]);
}

#[test]
fn data_unknown_or_bodiless_items_passed_over() {
    let kinds = [InvKind::WitnessBlock, InvKind::WitnessBlock, InvKind::WitnessBlock];
    assert_eq!(serve(&kinds, &[false, true, false], None), vec![1]);
}

#[test]
fn data_failed_fetch_ends_request() {
    let kinds = [InvKind::WitnessBlock, InvKind::WitnessBlock, InvKind::WitnessBlock];
    assert_eq!(serve(&kinds, &[true, true, true], Some(1)), vec![0]);
}

#[test]
fn data_only_unsupported_items_sends_nothing() {
    let kinds = [InvKind::Block, InvKind::Transaction];
    let d = DataServe::new(&kinds.to_vec());
    assert_eq!(d.next_item(), None);
}
