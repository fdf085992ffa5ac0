use halberd::block::{BlockBuilder, BlockId, BlockLocal, BlockLocalRef, Ctx};

#[test]
fn new_block_collects_locals_and_terminal() {
    let mut ctx = Ctx::new();
    let blk = ctx.new_block(|b: &mut BlockBuilder<&str, u32>, _c: &mut Ctx| {
        b.push_void_local("start");
        let r = b.push_valued_local(5);
        r.local as u32 + 10
    });
    assert_eq!(blk.id, BlockId(0));
    assert_eq!(blk.terminal, 11);
    assert_eq!(ctx.next_id, 1);
    let locals = blk.locals();
    assert_eq!(locals.len(), 2);
    assert_eq!(locals[1].0, BlockLocalRef { block: BlockId(0), local: 1 });
    assert!(matches!(locals[1].1, BlockLocal::Valued(5)));
}

#[test]
fn nested_blocks_get_later_ids() {
    let mut ctx = Ctx::new();
    let outer = ctx.new_block(|_b: &mut BlockBuilder<(), ()>, c: &mut Ctx| {
        c.new_block(|_b: &mut BlockBuilder<(), ()>, _c: &mut Ctx| ()).id
    });
    assert_eq!(outer.id, BlockId(0));
    assert_eq!(outer.terminal, BlockId(1));
    assert_eq!(ctx.next_id, 2);
}

#[test]
fn try_new_block_passes_the_error_on() {
    let mut ctx = Ctx::new();
    let r = ctx.try_new_block(|b: &mut BlockBuilder<(), u8>, _c: &mut Ctx| {
        b.push_valued_local(1);
        Err::<(), &str>("no")
    });
    assert!(matches!(r, Err("no")));
    let ok = ctx.try_new_block(|_b: &mut BlockBuilder<(), u8>, _c: &mut Ctx| Ok::<u8, &str>(4)).unwrap();
    assert_eq!(ok.id, BlockId(1));
    assert_eq!(ok.terminal, 4);
}

#[test]
fn map_replaces_every_local_and_the_terminal() {
    let mut ctx = Ctx::new();
    let blk = ctx.new_block(|b: &mut BlockBuilder<u8, u16>, _c: &mut Ctx| {
        b.push_void_local(1);
        b.push_valued_local(2);
        3u32
    });
    let m = blk.map(|v: u8| v as u32 * 10, |v: u16| v as u64 * 100, |t: u32| t + 1);
    assert_eq!(m.id, BlockId(0));
    assert!(matches!(m.locals[0], BlockLocal::Void(10)));
    assert!(matches!(m.locals[1], BlockLocal::Valued(200)));
    assert_eq!(m.terminal, 4);
}
