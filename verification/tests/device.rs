use eisen::graph::device::Plan;
use eisen::graph::kernel::{kernels_to_load, DeviceModule, Kernel};
use eisen::graph::launch::{elementwise_launch, tiled_launch, tiles_can_be_counted};
use eisen::graph::memory::{should_compress_to_bf16, AllocAction, Upload};
use eisen::graph::operations::Outcome;
use eisen::graph::plan::{Arg, Label, Step};
use eisen::graph::pool::Pool;
use eisen::graph::rewind::{BackAction, BackStage};
use eisen::graph::settings::{
    bf16_requested_by_env, budget_by_env, choose_precision, env_usize, force_fp32_by_env,
    PrecisionMode,
};
use eisen::graph::{Graph, Load};
use eisen::nn::optim::AdamW;
use eisen::tape::{DeviceOp, Op, TapeNode};
use eisen::tensor::{Device, DeviceBuffer, Fetch, Storage, StorageKind};

fn buffer(handle: usize, len: usize) -> DeviceBuffer {
    DeviceBuffer { handle, len }
}

fn on_device(mode: PrecisionMode, budget: Option<usize>) -> Graph<u64> {
    Graph::new(Device::Gpu, mode, budget, 0)
}

fn put(g: &mut Graph<u64>, shape: &[usize]) -> usize {
    let n = shape.iter().product();
    let h = 2 * g.tensors.len();
    g.alloc_on_device(shape.to_vec(), buffer(h, n), buffer(h + 1, n))
}

fn put_pooled(g: &mut Graph<u64>, shape: &[usize]) -> usize {
    let n = shape.iter().product();
    let h = 2 * g.tensors.len();
    g.push_pooled(shape.to_vec(), buffer(h, n), buffer(h + 1, n))
}

fn arg(a: &Arg<u64>) -> String {
    match a {
        Arg::Data(i) => format!("d{}", i),
        Arg::Grad(i) => format!("g{}", i),
        Arg::Cast(i) => format!("c{}", i),
        Arg::Upload(i) => format!("u{}", i),
        Arg::Targets(i) => format!("t{}", i),
        Arg::GradTemp => "temp".to_string(),
        Arg::Mean(i) => format!("m{}", i),
        Arg::Squares(i) => format!("v{}", i),
        Arg::Size(n) => format!("{}", n),
        Arg::Int(n) => format!("{}i", n),
        Arg::Flag(b) => format!("{}", b),
        Arg::Real(x) => format!("{}r", x),
        Arg::Half(h) => format!("{}h", h),
    }
}

fn words(steps: &Vec<Step<u64>>) -> String {
    let mut out: Vec<String> = vec![];
    for s in steps {
        out.push(match s {
            Step::AllocOut => "alloc".to_string(),
            Step::NameOut(l) => format!("name {}", l.text()),
            Step::AllocScratch(n) => format!("scratch {}", n),
            Step::CastIn { id, size } => format!("castin {} {}", id, size),
            Step::CastTemp { id, size } => format!("casttemp {} {}", id, size),
            Step::Ensure(i) => format!("ensure {}", i),
            Step::UploadFull(i) => format!("upload {}", i),
            Step::UploadInt(i) => format!("uploadint {}", i),
            Step::UploadTargets => "uploadtargets".to_string(),
            Step::Begin(k) => k.name().to_string(),
            Step::Push(a) => arg(a),
            Step::Launch(d) => format!("launch {}", d.grid.0),
            Step::Sync => "sync".to_string(),
            Step::DropUpload => "dropupload".to_string(),
            Step::CastOut(n) => format!("castout {}", n),
            Step::DropScratch => "dropscratch".to_string(),
            Step::AllocGradTemp(n) => format!("alloctemp {}", n),
            Step::FetchGradTemp(i) => format!("fetchtemp {}", i),
            Step::Record => "record".to_string(),
        });
    }
    out.join(" ")
}

fn plan(o: Outcome<u64>) -> Plan<u64> {
    match o {
        Outcome::Run(p) => p,
        _ => panic!("not on the device"),
    }
}

/// Carries a plan out as far as the graph is concerned.
fn finish(g: &mut Graph<u64>, p: Plan<u64>) -> usize {
    let n: usize = p.out_shape.iter().product();
    let id = put_pooled(g, &p.out_shape);
    assert_eq!(g.tensors[id].data.len(), n);
    if words(&p.steps).contains("record") {
        g.record(TapeNode { inputs: p.inputs, output: id, op: Op::Device(p.op) });
    }
    id
}

#[test]
fn switches_are_read_loosely() {
    assert!(bf16_requested_by_env(None));
    assert!(bf16_requested_by_env(Some("bf16")));
    assert!(bf16_requested_by_env(Some(" AUTO\n")));
    assert!(!bf16_requested_by_env(Some("fp32")));
    for yes in ["1", "true", " Yes "] {
        assert!(force_fp32_by_env(Some(yes)));
    }
    assert!(!force_fp32_by_env(Some("0")));
    assert!(!force_fp32_by_env(None));
}

#[test]
fn numbers_from_the_environment() {
    assert_eq!(env_usize(Some("12"), 5), 12);
    assert_eq!(env_usize(Some("x"), 5), 5);
    assert_eq!(env_usize(None, 5), 5);
    assert_eq!(budget_by_env(None), None);
    assert_eq!(budget_by_env(Some("2")), Some(2 << 20));
    assert_eq!(budget_by_env(Some("two")), None);
}

#[test]
fn precision_needs_request_and_device() {
    let half = PrecisionMode::Bf16Mixed;
    assert!(choose_precision(true, false, Device::Gpu, true) == half);
    assert!(choose_precision(true, true, Device::Gpu, true) == PrecisionMode::Fp32);
    assert!(choose_precision(false, false, Device::Gpu, true) == PrecisionMode::Fp32);
    assert!(choose_precision(true, false, Device::Gpu, false) == PrecisionMode::Fp32);
    assert!(choose_precision(true, false, Device::Cpu, true) == PrecisionMode::Fp32);
}

#[test]
fn launches_cover_the_elements() {
    let one = elementwise_launch(1);
    assert_eq!((one.grid, one.block, one.shared_mem_bytes), ((1, 1, 1), (1024, 1, 1), 0));
    assert_eq!(elementwise_launch(1024).grid, (1, 1, 1));
    assert_eq!(elementwise_launch(1025).grid, (2, 1, 1));
    assert_eq!(elementwise_launch(0).grid, (0, 1, 1));
    let t = tiled_launch(17, 16, 3);
    assert_eq!(t.grid, (2, 1, 3));
    assert_eq!(t.block, (16, 16, 1));
    assert!(tiles_can_be_counted(1 << 20, 1 << 20));
    assert!(!tiles_can_be_counted(0xffff_fff5, 1));
}

#[test]
fn kernels_have_names_and_homes() {
    assert_eq!(Kernel::AddF32.name(), "add_f32");
    assert_eq!(Kernel::MatmulBf16.name(), "matmul_bf16");
    assert!(Kernel::AddF32.module() == DeviceModule::Full);
    let all = kernels_to_load();
    let mut names: Vec<&str> = all.iter().map(|k| k.name()).collect();
    assert!(names.contains(&"softmax_f32"));
    let n = names.len();
    names.sort();
    names.dedup();
    assert_eq!(names.len(), n);
}

#[test]
fn pool_gives_the_last_buffer_first() {
    let mut p = Pool::new();
    p.push(4, buffer(1, 4));
    p.push(8, buffer(2, 8));
    p.push(4, buffer(3, 4));
    assert!(p.pop(4) == Some(buffer(3, 4)));
    assert!(p.pop(4) == Some(buffer(1, 4)));
    assert!(p.pop(4).is_none());
    assert!(p.pop(8) == Some(buffer(2, 8)));
}

#[test]
fn usage_counts_tensors_and_pools() {
    let mut g = on_device(PrecisionMode::Fp32, None);
    put(&mut g, &[2, 3]);
    assert_eq!(g.current_vram_usage(), 48);
    g.keep_buffer(5, buffer(9, 5));
    assert_eq!(g.current_vram_usage(), 68);
}

#[test]
fn restoring_fills_the_pool() {
    let mut g = on_device(PrecisionMode::Fp32, None);
    put(&mut g, &[2]);
    let at = g.mark_save_point();
    put_pooled(&mut g, &[4]);
    let used = g.current_vram_usage();
    g.restore_save_point(at);
    assert_eq!(g.tensors.len(), 1);
    assert_eq!(g.current_vram_usage(), used);
    assert!(g.cached_buffer(4).is_some());
}

#[test]
fn released_buffers_serve_again() {
    let mut g = on_device(PrecisionMode::Fp32, None);
    let at = g.mark_save_point();
    let sizes = [4, 6, 4, 2];
    for n in sizes {
        put_pooled(&mut g, &[n]);
    }
    g.restore_save_point(at);
    for n in sizes {
        assert!(g.cached_buffer(n).is_some());
        assert!(g.cached_grad(n).is_some());
    }
    assert!(g.cached_buffer(3).is_none());
    assert!(g.cached_buffer(4).is_none());
    assert!(g.cached_grad(4).is_none());
}

#[test]
fn released_halves_serve_again() {
    let mut g = on_device(PrecisionMode::Bf16Mixed, None);
    let at = g.mark_save_point();
    let sizes = [4, 6, 4];
    for n in sizes {
        put_pooled(&mut g, &[n]);
    }
    g.restore_save_point(at);
    assert_eq!(g.vram_pool.entries.len(), 3);
    assert_eq!(g.vram_pool_bf16.entries.len(), 3);
    for n in sizes {
        assert!(g.cached_buffer(n).is_some());
        assert!(g.cached_grad(n).is_some());
    }
    assert!(g.vram_pool.entries.is_empty());
    assert!(g.vram_pool_bf16.entries.is_empty());
}

#[test]
fn a_gradient_from_the_pool_is_zeroed() {
    let mut g = on_device(PrecisionMode::Fp32, None);
    let id = put_pooled(&mut g, &[2, 3]);
    let steps = g.grad_zeroing(id);
    assert_eq!(words(&steps), "fill_f32 g0 0r 6 launch 1");
    assert_eq!(id, 0);
}

#[test]
fn gradients_are_in_full_precision() {
    let mut g = on_device(PrecisionMode::Bf16Mixed, None);
    let w = g.alloc_param_bf16(vec![4], buffer(0, 4), buffer(1, 4));
    let x = put_pooled(&mut g, &[4]);
    assert!(g.tensors[w].data.kind() == StorageKind::GpuBf16);
    assert!(g.tensors[w].grad.kind() == StorageKind::Gpu);
    assert!(g.tensors[w].is_param);
    assert!(g.tensors[x].grad.kind() == StorageKind::Gpu);
    assert_eq!(g.current_vram_usage(), 48);
}

#[test]
fn half_buffers_go_to_their_own_pool() {
    let mut g = on_device(PrecisionMode::Bf16Mixed, None);
    let at = g.mark_save_point();
    let id = put_pooled(&mut g, &[4]);
    assert!(g.tensors[id].data.kind() == StorageKind::GpuBf16);
    g.restore_save_point(at);
    assert!(!g.vram_pool_bf16.entries.is_empty());
    assert!(g.cached_buffer(4) == Some(buffer(0, 4)));
}

#[test]
fn clearing_keeps_the_parameters() {
    let mut g = on_device(PrecisionMode::Fp32, None);
    put(&mut g, &[2]);
    g.mark_params();
    let a = put_pooled(&mut g, &[3]);
    g.track_forward(a);
    g.record(TapeNode { inputs: vec![0], output: a, op: Op::Reshape });
    g.clear_activations();
    assert_eq!(g.tensors.len(), 1);
    assert!(g.tape.nodes.is_empty());
    assert!(g.forward_tensor_ids.is_empty());
}

#[test]
fn allocation_within_the_budget() {
    let mut g = on_device(PrecisionMode::Fp32, Some(1000));
    let mut a = g.safe_alloc_zeros(400);
    assert!(g.alloc_next(&mut a) == AllocAction::Try);
    // The driver refuses: the pools are emptied and it is asked again.
    assert!(g.alloc_next(&mut a) == AllocAction::Sync { ask: true });
    assert!(g.alloc_next(&mut a) == AllocAction::Fail);
}

#[test]
fn allocation_evicts_activations() {
    let mut g = on_device(PrecisionMode::Fp32, Some(100));
    put(&mut g, &[2]);
    let a = put_pooled(&mut g, &[5]);
    let b = put_pooled(&mut g, &[5]);
    g.record(TapeNode { inputs: vec![0], output: b, op: Op::Reshape });
    let mut m = g.safe_alloc_zeros(40);
    assert!(g.alloc_next(&mut m) == AllocAction::Sync { ask: false });
    assert!(g.alloc_next(&mut m) == AllocAction::Demote(a));
    let d = g.demote_tensor_to_cpu(a);
    assert!(d.data == Some(buffer(2, 5)));
    assert!(!d.half);
    assert!(d.grad == Some(buffer(3, 5)));
    g.data_demoted(a, vec![1, 2, 3, 4, 5]);
    g.grad_demoted(a, vec![0; 5]);
    assert!(g.alloc_next(&mut m) == AllocAction::Try);
    assert!(g.alloc_next(&mut m) == AllocAction::Fail);
}

#[test]
fn tensors_come_back_to_the_device() {
    let mut g = on_device(PrecisionMode::Fp32, None);
    let a = g.alloc_cpu_homed(vec![2], vec![7, 8]);
    match g.ensure_on_gpu(a) {
        Upload::Full(v) => assert_eq!(v, vec![7, 8]),
        _ => panic!("the elements are on the host"),
    }
    assert!(g.ensure_grad_on_gpu(a) == Some(vec![0, 0]));
    assert_eq!(g.ensure_grad_allocated(a), Some(2));
    g.data_uploaded(a, false, buffer(1, 2));
    g.grad_uploaded(a, buffer(2, 2));
    assert!(matches!(g.ensure_on_gpu(a), Upload::Nothing));
    assert!(g.ensure_grad_allocated(a).is_none());
    match g.sync_grad_to_cpu(a) {
        Fetch::Full(b) => assert!(b == buffer(2, 2)),
        _ => panic!("the gradient is on the device"),
    }
    let b = g.alloc_cpu_homed(vec![2], vec![7, 8]);
    match g.tensors[b].sync_to_cpu() {
        Fetch::Ready(v) => assert_eq!(v, vec![7, 8]),
        _ => panic!("the elements are on the host"),
    }
    g.grad_fetched(b, &vec![3, 4]);
    g.grad_fetched(b, &vec![1]);
    assert_eq!(g.get_grad(b), &vec![4, 4]);
}

#[test]
fn matrices_are_compressed() {
    assert!(!should_compress_to_bf16(&[4]));
    assert!(should_compress_to_bf16(&[4096, 4096]));
}

#[test]
fn streamed_weights_leave_the_device() {
    let mut g = on_device(PrecisionMode::Fp32, None);
    let a = put(&mut g, &[2]);
    g.stream_out(a, vec![3, 4]);
    assert!(g.tensors[a].data.is_cpu());
    assert_eq!(g.get_grad(a), &vec![0, 0]);
}

#[test]
fn elements_are_loaded() {
    let mut g = on_device(PrecisionMode::Fp32, None);
    let a = put(&mut g, &[2]);
    match g.load_tensor_data(a, &vec![1, 2]) {
        Load::Full(b) => assert!(b == buffer(0, 2)),
        _ => panic!("the tensor is on the device"),
    }
    let b = g.alloc_cpu_homed(vec![2], vec![0, 0]);
    assert!(matches!(g.load_tensor_data(b, &vec![5, 6]), Load::Done));
    assert_eq!(g.get_data(b), &vec![5, 6]);
}

#[test]
fn streaming_plan_divides_the_parameters() {
    let mut g = on_device(PrecisionMode::Fp32, None);
    put(&mut g, &[10]);
    put(&mut g, &[20]);
    put(&mut g, &[5]);
    g.mark_params();
    let all = g.plan_streaming(10000, 0, &[]);
    assert_eq!(all.resident_param_ids, vec![0, 1, 2]);
    assert!(all.streamed_param_ids.is_empty());
    assert_eq!(all.resident_bytes, 35 * 16);
    let some = g.plan_streaming(400, 0, &[]);
    assert_eq!(some.resident_param_ids, vec![0, 2]);
    assert_eq!(some.streamed_param_ids, vec![1]);
    assert_eq!(some.streamed_bytes, 80);
    let pinned = g.plan_streaming(400, 0, &[1]);
    assert_eq!(pinned.resident_param_ids[0], 1);
}

#[test]
fn headroom_is_that_of_the_largest_streamed_parameter() {
    let mut g = on_device(PrecisionMode::Fp32, None);
    put(&mut g, &[10]);
    put(&mut g, &[1]);
    g.mark_params();
    let r = g.plan_streaming(160, 0, &[]);
    assert_eq!(r.streamed_param_ids, vec![1, 0]);
    assert!(r.resident_param_ids.is_empty());
    assert_eq!(r.streaming_headroom_bytes, 40);
}

#[test]
fn report_accounts_for_all() {
    let mut g = on_device(PrecisionMode::Fp32, Some(1000));
    put(&mut g, &[2]);
    put_pooled(&mut g, &[3]);
    g.keep_buffer(4, buffer(99, 4));
    match g.vram_state(900, 5000) {
        Some(s) => {
            assert_eq!((s.param_data, s.param_grad), (8, 8));
            assert_eq!((s.pooled_data, s.pooled_grad), (12, 12));
            assert_eq!(s.idle, 16);
            assert_eq!(s.used, 100);
            assert_eq!(s.unaccounted, 4100 - 56);
            assert!(s.heavy_gradients);
        },
        None => panic!("there is a budget"),
    }
    assert!(on_device(PrecisionMode::Fp32, None).vram_state(0, 0).is_none());
}

#[test]
fn breakdown_lists_the_greatest_first() {
    let mut g = on_device(PrecisionMode::Fp32, None);
    put(&mut g, &[2, 3]);
    let a = put_pooled(&mut g, &[10]);
    let b = put_pooled(&mut g, &[10]);
    g.name_tensor(a, "x");
    g.name_tensor(b, "x");
    g.alloc_cpu_homed(vec![2], vec![0, 0]);
    let v = g.tensor_breakdown();
    assert_eq!(v.len(), 2);
    let name: String = v[0].name.iter().collect();
    assert_eq!(name, "[P] x");
    assert_eq!((v[0].data_bytes, v[0].grad_bytes, v[0].count), (80, 80, 2));
    let name: String = v[1].name.iter().collect();
    assert_eq!(name, "[S] ID 0 [2, 3]");
}

#[test]
fn plan_of_an_addition() {
    let mut g = on_device(PrecisionMode::Fp32, None);
    let a = put(&mut g, &[2, 3]);
    let b = put(&mut g, &[3]);
    assert!(g.can_add(a, b));
    let o = g.add(a, b);
    let p = plan(o);
    assert_eq!(p.out_shape, vec![2, 3]);
    assert_eq!(p.inputs, vec![0, 1]);
    assert_eq!(
        words(&p.steps),
        "alloc name add_output add_f32 d0 d1 d2 6 2 2 3 1 3 1 0 0 1 0 launch 1 record"
    );
    g.no_grad = true;
    let o = g.add(a, b);
    assert!(!words(&plan(o).steps).contains("record"));
}

#[test]
fn plan_of_an_activation() {
    let mut g = on_device(PrecisionMode::Fp32, None);
    let a = put(&mut g, &[5]);
    let o = g.silu(a);
    assert_eq!(
        words(&plan(o).steps),
        "alloc name silu_output silu_f32 d0 d1 5 launch 1 record"
    );
}

#[test]
fn plan_of_a_product() {
    let mut g = on_device(PrecisionMode::Fp32, None);
    let a = put(&mut g, &[2, 3]);
    let b = put(&mut g, &[3, 4]);
    assert!(g.can_matmul(a, b));
    let o = g.matmul(a, b);
    let p = plan(o);
    assert_eq!(p.out_shape, vec![2, 4]);
    let w = words(&p.steps);
    assert!(w.contains("matmul_f32 d0 d1 d2 2 3 4"), "{}", w);
    assert!(!g.can_matmul(b, a));
}

#[test]
fn plan_of_a_streamed_product() {
    let mut g = on_device(PrecisionMode::Fp32, None);
    let a = put(&mut g, &[2, 3]);
    let b = g.alloc_cpu_homed(vec![3, 4], vec![1; 12]);
    assert!(g.can_matmul(a, b));
    let o = g.matmul(a, b);
    let w = words(&plan(o).steps);
    assert!(w.contains("upload 1"), "{}", w);
    assert!(w.contains("u1"), "{}", w);
}

#[test]
fn matrices_of_sixteen_bits_on_the_host_are_streamed() {
    let mut g = on_device(PrecisionMode::Fp32, None);
    let a = put(&mut g, &[2, 3]);
    let b = g.alloc_cpu_homed(vec![3, 4], vec![1; 12]);
    g.tensors[b].data = Storage::CpuBf16(vec![1; 12]);
    assert!(g.can_matmul(a, b));
    let o = g.matmul(a, b);
    let w = words(&plan(o).steps);
    assert!(w.contains("upload 1"), "{}", w);
}

#[test]
fn streamed_matrices_are_rounded_where_asked_for() {
    let mut g = on_device(PrecisionMode::Fp32, None);
    let a = put(&mut g, &[2, 3]);
    let b = g.alloc_cpu_homed(vec![3, 4], vec![1; 12]);
    assert!(g.can_matmul_bf16(a, b));
    let o = g.matmul_bf16(a, b);
    let p = plan(o);
    let w = words(&p.steps);
    assert!(w.starts_with("upload 1 alloc matmul_f32_bf16accum_f32 d0 u1 d2 2 3 4 "), "{}", w);
    assert!(matches!(p.op, DeviceOp::Streamed { back_a: Kernel::MatmulBackwardAF32, .. }));
    let o = g.matmul(a, b);
    let w = words(&plan(o).steps);
    assert!(w.starts_with("upload 1 alloc matmul_f32 d0 u1 d2 2 3 4 "), "{}", w);
}

#[test]
fn host_operands_of_an_addition_go_over_as_integers() {
    let mut g = on_device(PrecisionMode::Bf16Mixed, None);
    let a = put_pooled(&mut g, &[3]);
    let b = g.alloc_cpu_homed(vec![3], vec![1, 2, 3]);
    assert!(g.can_add(a, b));
    let o = g.add(a, b);
    let w = words(&plan(o).steps);
    let start = "alloc name add_output uploadint 1 add_bf16lhs_f32rhs_bf16out d0 u1 d2 ";
    assert!(w.starts_with(start), "{}", w);
}

#[test]
fn kernels_are_chosen_before_operands_are_brought() {
    let mut g = on_device(PrecisionMode::Bf16Mixed, None);
    let a = put_pooled(&mut g, &[1, 2, 3]);
    let o = g.softmax(a);
    assert!(words(&plan(o).steps).contains("softmax_bf16 "));
    g.demote_tensor_to_cpu(a);
    g.data_demoted(a, vec![1; 6]);
    assert!(g.can_softmax(a));
    let o = g.softmax(a);
    let w = words(&plan(o).steps);
    assert!(w.contains("ensure 0 ") && w.contains("softmax_f32 "), "{}", w);
}

#[test]
fn parameters_stay_on_the_device() {
    let mut g = on_device(PrecisionMode::Fp32, Some(100));
    put_pooled(&mut g, &[5]);
    put_pooled(&mut g, &[5]);
    g.mark_params();
    let mut m = g.safe_alloc_zeros(40);
    assert!(g.alloc_next(&mut m) == AllocAction::Sync { ask: false });
    assert!(!matches!(g.alloc_next(&mut m), AllocAction::Demote(_)));
}

#[test]
fn way_back_is_tested() {
    let mut g = on_device(PrecisionMode::Fp32, None);
    let a = put(&mut g, &[3]);
    let o = g.silu(a);
    let p = plan(o);
    let y = finish(&mut g, p);
    let mut r = match g.backward(y) {
        Some(r) => r,
        None => panic!("the graph is on the device"),
    };
    assert!(g.can_count_scratch());
    assert!(g.can_go_on(&r));
    r.stage = BackStage::Grads(2);
    assert!(g.can_go_on(&r));
    r.stage = BackStage::Grads(3);
    assert!(!g.can_go_on(&r));
    r.stage = BackStage::Work;
    r.left = 2;
    assert!(!g.can_go_on(&r));
    r.left = 0;
    assert!(!g.can_go_on(&r));
    r.left = 1;
    assert!(g.can_go_on(&r));
    g.tape.nodes[0].inputs[0] = 9;
    assert!(!g.can_go_on(&r));
}

#[test]
fn way_back_on_the_device() {
    let mut g = on_device(PrecisionMode::Fp32, None);
    let a = put(&mut g, &[3]);
    let o = g.silu(a);
    let p = plan(o);
    let y = finish(&mut g, p);
    let mut r = match g.backward(y) {
        Some(r) => r,
        None => panic!("the graph is on the device"),
    };
    let mut seen: Vec<String> = vec![];
    let mut rounds = 0;
    loop {
        rounds += 1;
        assert!(rounds < 100);
        match g.backward_next(&mut r, 1 << 30) {
            BackAction::Grad(i) => seen.push(format!("grad {}", i)),
            BackAction::AskFree => seen.push("free".to_string()),
            BackAction::Demote(i) => seen.push(format!("demote {}", i)),
            BackAction::Warn => seen.push("warn".to_string()),
            BackAction::Bring(i) => seen.push(format!("bring {}", i)),
            BackAction::Sync => seen.push("sync".to_string()),
            BackAction::Run(s) => seen.push(words(&s)),
            BackAction::Unsupported => panic!("the operation is supported"),
            BackAction::Done => break,
        }
    }
    assert_eq!(seen[0], "grad 1");
    assert!(seen[1].starts_with("fill_f32 g1"), "{}", seen[1]);
    let back: Vec<&String> = seen.iter().filter(|s| s.contains("silu_backward_f32")).collect();
    assert_eq!(back.len(), 1);
    assert!(seen.contains(&"bring 0".to_string()));
    assert!(g.active_node_tensors.is_empty());
}

#[test]
fn way_back_makes_room() {
    let mut g: Graph<u64> = Graph::new(Device::Gpu, PrecisionMode::Fp32, None, 1);
    let a = put(&mut g, &[3]);
    let idle = put_pooled(&mut g, &[50]);
    let o = g.silu(a);
    let p = plan(o);
    let y = finish(&mut g, p);
    let mut r = match g.backward(y) {
        Some(r) => r,
        None => panic!("the graph is on the device"),
    };
    let mut demoted = vec![];
    loop {
        match g.backward_next(&mut r, 0) {
            BackAction::Demote(i) => {
                demoted.push(i);
                g.data_demoted(i, vec![0; 50]);
                g.grad_demoted(i, vec![0; 50]);
            },
            BackAction::Done => break,
            BackAction::Unsupported => panic!("the operation is supported"),
            _ => {},
        }
    }
    assert_eq!(demoted, vec![idle]);
}

#[test]
fn optimizer_on_the_device() {
    let mut g = on_device(PrecisionMode::Fp32, None);
    let w = put(&mut g, &[3]);
    let mut opt = AdamW::new(vec![w], 1u64);
    assert_eq!(opt.missing_moments(&g, w), Some(3));
    opt.moments_allocated(w, buffer(50, 3), buffer(51, 3));
    assert!(opt.missing_moments(&g, w).is_none());
    assert!(opt.moments_of(w) == Some((buffer(50, 3), buffer(51, 3))));
    assert!(!opt.can_step(&g, &vec![]));
    assert!(opt.can_step(&g, &vec![vec![]]));
    let work = opt.step(&mut g, &vec![vec![]]);
    assert_eq!(work.params.len(), 1);
    assert_eq!(work.params[0].id, w);
    let s = words(&work.params[0].steps);
    assert!(s.contains("adamw_step_f32 d0 g0 m0 v0"), "{}", s);
    let z = words(&opt.zero_grad(&mut g));
    assert!(z.contains("fill_f32 g0"), "{}", z);
}

#[test]
fn weights_of_sixteen_bits_are_moved_in_full_precision() {
    let mut g = on_device(PrecisionMode::Bf16Mixed, None);
    let w = g.alloc_param_bf16(vec![3], buffer(0, 3), buffer(1, 3));
    let x = put(&mut g, &[2]);
    let mut opt = AdamW::new(vec![w, x], 1u64);
    assert_eq!(opt.missing_moments(&g, w), Some(3));
    assert_eq!(opt.missing_moments(&g, x), Some(2));
    let work = opt.step(&mut g, &vec![vec![], vec![]]);
    let s = words(&work.params[0].steps);
    assert!(s.starts_with("casttemp 0 3 adamw_step_f32 c0 g0 m0 v0 "), "{}", s);
    assert!(s.ends_with("launch 1 cast_f32_to_bf16 c0 d0 3 launch 1"), "{}", s);
    let s = words(&work.params[1].steps);
    assert!(s.starts_with("adamw_step_f32 d1 g1 m1 v1 "), "{}", s);
}

#[test]
fn storage_kinds() {
    let s: Storage<u64> = Storage::CpuBf16(vec![1, 2]);
    assert!(s.kind() == StorageKind::CpuBf16);
    assert_eq!(s.len(), 2);
    assert!(s.is_cpu());
    assert_eq!(s.to_f32_vec().len(), 2);
    let t: Storage<u64> = Storage::GpuBf16(buffer(0, 3));
    assert!(eisen::tensor::is_bf16(&t));
    assert!(!t.is_cpu());
    assert_eq!(Label::Add.text(), "add_output");
}

#[test]
fn every_operation_has_a_plan() {
    let mut g = on_device(PrecisionMode::Fp32, None);
    let a = put(&mut g, &[2, 3]);
    let b = put(&mut g, &[2, 3, 4]);
    let c = put(&mut g, &[2, 4, 5]);
    let d = put(&mut g, &[1, 2, 3, 4]);
    let w = put(&mut g, &[3]);
    let e = put(&mut g, &[5, 3]);
    assert!(g.can_mul(a, a));
    let o = g.mul(a, a);
    assert!(words(&plan(o).steps).contains("mul_f32"));
    assert!(g.can_bmm(b, c, false));
    let o = g.bmm(b, c, false);
    assert_eq!(plan(o).out_shape, vec![2, 3, 5]);
    assert!(g.can_reduce(a, 1));
    let o = g.sum(a, 1);
    assert_eq!(plan(o).out_shape, vec![2]);
    let o = g.max(a, 0);
    assert_eq!(plan(o).out_shape, vec![3]);
    assert!(g.can_softmax(a));
    let o = g.softmax(a);
    assert!(words(&plan(o).steps).contains("softmax_f32"));
    assert!(g.can_cross_entropy(a, &[0, 2]));
    let o = g.cross_entropy(a, &[0, 2]);
    let p = plan(o);
    assert_eq!(p.targets, vec![0, 2]);
    assert!(words(&p.steps).contains("cross_entropy_f32"));
    assert!(g.can_transpose_0213(d));
    let o = g.transpose_0213(d);
    assert_eq!(plan(o).out_shape, vec![1, 3, 2, 4]);
    assert!(g.can_reshape(a, &vec![6]));
    let o = g.reshape(a, vec![6]);
    assert!(words(&plan(o).steps).contains("copy_f32"));
    assert!(g.can_rope(b, 2));
    let o = g.rope(b, 2);
    assert!(words(&plan(o).steps).contains("rope_f32"));
    assert!(g.can_repeat_kv(d, 2));
    let o = g.repeat_kv(d, 2);
    assert!(words(&plan(o).steps).contains("repeat_kv_f32"));
    assert!(g.can_rms_norm(a, w));
    let o = g.rms_norm(a, w, 0);
    assert!(words(&plan(o).steps).contains("rmsnorm_f32"));
    let i = put(&mut g, &[2]);
    assert!(g.can_gather(e, i));
    let o = g.gather(e, i);
    assert_eq!(plan(o).out_shape, vec![2, 3]);
    assert!(g.can_matmul_trans_b(a, e));
    let o = g.matmul_trans_b(a, e);
    assert_eq!(plan(o).out_shape, vec![2, 5]);
    g.no_grad = true;
    assert!(g.can_flash_attention(b, b, b));
    let o = g.flash_attention(b, b, b, 1, true);
    assert!(words(&plan(o).steps).contains("flash_attention_f32"));
}
