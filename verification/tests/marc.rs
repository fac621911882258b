use commit_log::utils::marc::{Destory, Marc};
use std::cell::Cell;
use std::rc::Rc;

#[derive(Default)]
struct MarcTestCtx {
    destory_cnt: [u32; 8],
}

struct TestObj {
    id: usize,
}

impl Destory for TestObj {
    type DestoryCtx = MarcTestCtx;

    fn destory(&mut self, ctx: &mut Self::DestoryCtx) {
        ctx.destory_cnt[self.id] += 1;
    }
}

#[test]
fn marc_t() {
    let mut destory_ctx = MarcTestCtx::default();
    let marc1 = Marc::new(TestObj { id: 3 });
    {
        let marc2 = marc1.clone();
        marc2.unref(&mut destory_ctx);
    }
    let id = marc1.id;
    assert_eq!(0, destory_ctx.destory_cnt[id]);
    marc1.unref(&mut destory_ctx);
    assert_eq!(1, destory_ctx.destory_cnt[id]);

    let id2 = 7;
    {
        let _ = Marc::new(TestObj { id: id2 });
    }
    assert_eq!(0, destory_ctx.destory_cnt[id2]);
}

#[test]
fn teardown_runs_once_with_the_last_handle() {
    let mut ctx = MarcTestCtx::default();
    let first = Marc::new(TestObj { id: 5 });
    let mut handles = Vec::new();
    for _ in 0..10 {
        handles.push(first.clone());
    }
    handles.push(handles[3].clone());
    for handle in handles {
        handle.unref(&mut ctx);
        assert_eq!(0, ctx.destory_cnt[5]);
    }
    assert_eq!(5, first.id);
    first.unref(&mut ctx);
    assert_eq!([0, 0, 0, 0, 0, 1, 0, 0], ctx.destory_cnt);
}

#[test]
fn handles_can_be_given_up_in_any_order() {
    let mut ctx = MarcTestCtx::default();
    let first = Marc::new(TestObj { id: 1 });
    let second = first.clone();
    let third = second.clone();
    first.unref(&mut ctx);
    assert_eq!(0, ctx.destory_cnt[1]);
    assert_eq!(1, third.id);
    third.unref(&mut ctx);
    assert_eq!(0, ctx.destory_cnt[1]);
    second.unref(&mut ctx);
    assert_eq!(1, ctx.destory_cnt[1]);
}

/// A payload that counts how often it was cloned and torn down.
struct Counted {
    value: u32,
    clones: Rc<Cell<u32>>,
}

impl Clone for Counted {
    fn clone(&self) -> Self {
        self.clones.set(self.clones.get() + 1);
        Counted { value: self.value, clones: self.clones.clone() }
    }
}

impl Destory for Counted {
    type DestoryCtx = Vec<u32>;

    fn destory(&mut self, ctx: &mut Vec<u32>) {
        ctx.push(self.value);
    }
}

#[test]
fn make_mut_on_a_single_handle_copies_nothing() {
    let clones = Rc::new(Cell::new(0));
    let mut torn: Vec<u32> = Vec::new();
    let mut handle = Marc::new(Counted { value: 1, clones: clones.clone() });
    handle.make_mut(&mut torn).value = 2;
    assert_eq!(2, handle.value);
    *handle.make_mut(&mut torn) = Counted { value: 3, clones: clones.clone() };
    assert_eq!(3, handle.value);
    assert_eq!(0, clones.get());
    assert!(torn.is_empty());
    handle.unref(&mut torn);
    assert_eq!(vec![3], torn);
}

#[test]
fn make_mut_on_a_shared_handle_leaves_the_others_alone() {
    let clones = Rc::new(Cell::new(0));
    let mut torn: Vec<u32> = Vec::new();
    let mut writer = Marc::new(Counted { value: 10, clones: clones.clone() });
    let reader = writer.clone();
    assert_eq!(0, clones.get());

    writer.make_mut(&mut torn).value = 11;
    assert_eq!(1, clones.get());
    assert_eq!(11, writer.value);
    assert_eq!(10, reader.value);
    assert!(torn.is_empty());

    // The writer is alone with its copy now.
    writer.make_mut(&mut torn).value = 12;
    assert_eq!(1, clones.get());
    assert_eq!(12, writer.value);
    assert_eq!(10, reader.value);

    reader.unref(&mut torn);
    assert_eq!(vec![10], torn);
    writer.unref(&mut torn);
    assert_eq!(vec![10, 12], torn);
}

#[test]
fn a_clone_sees_the_payload_of_its_origin() {
    let mut torn: Vec<u32> = Vec::new();
    let first = Marc::new(Counted { value: 42, clones: Rc::new(Cell::new(0)) });
    let second = first.clone();
    assert_eq!(42, second.value);
    assert_eq!(0, second.clones.get());
    first.unref(&mut torn);
    assert_eq!(42, second.value);
    second.unref(&mut torn);
    assert_eq!(vec![42], torn);
}

#[test]
fn only_the_payload_of_the_last_handle_is_torn_down() {
    let mut ctx = MarcTestCtx::default();
    Marc::<TestObj>::tear_down_last(None, &mut ctx);
    assert_eq!([0; 8], ctx.destory_cnt);
    Marc::tear_down_last(Some(TestObj { id: 2 }), &mut ctx);
    assert_eq!([0, 0, 1, 0, 0, 0, 0, 0], ctx.destory_cnt);
    Marc::<TestObj>::tear_down_last(None, &mut ctx);
    Marc::tear_down_last(Some(TestObj { id: 6 }), &mut ctx);
    assert_eq!([0, 0, 1, 0, 0, 0, 1, 0], ctx.destory_cnt);
}
