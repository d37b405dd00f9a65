use rand::RngCore;
use simkernel::context::Context;
use simkernel::partitions::FirstValue;
use simkernel::random::stream_seed;
use simkernel::random::RandomContext;
use simkernel::random::RandomId;

type Sim = Context<(), (), FirstValue>;

struct RandomIdOne {}
impl RandomId for RandomIdOne {
    const INDEX: usize = 0;

    fn get_name() -> &'static str {
        "RandomIdOne"
    }
}

struct RandomIdTwo {}
impl RandomId for RandomIdTwo {
    const INDEX: usize = 1;

    fn get_name() -> &'static str {
        "RandomIdTwo"
    }
}

#[test]
fn random_test() {
    let mut context = Sim::new();
    context.set_base_random_seed(8675309);
    let rng_one = context.get_rng::<RandomIdOne>();
    let rng_one_sample_1 = rng_one.next_u64();
    let rng_one_sample_2 = rng_one.next_u64();
    let rng_two = context.get_rng::<RandomIdTwo>();
    let rng_two_sample_1 = rng_two.next_u64();
    let rng_two_sample_2 = rng_two.next_u64();
    assert_ne!(rng_one_sample_1, rng_one_sample_2);
    assert_ne!(rng_two_sample_1, rng_two_sample_2);
    assert_ne!(rng_one_sample_1, rng_two_sample_1);
    assert_ne!(rng_one_sample_2, rng_two_sample_2);
    assert_ne!(rng_one_sample_1, rng_two_sample_2);
    assert_ne!(rng_two_sample_1, rng_one_sample_2);

    context.set_base_random_seed(8675309);
    assert_eq!(
        rng_one_sample_1,
        context.get_rng::<RandomIdOne>().next_u64()
    );
    assert_eq!(
        rng_one_sample_2,
        context.get_rng::<RandomIdOne>().next_u64()
    );
    assert_eq!(
        rng_two_sample_1,
        context.get_rng::<RandomIdTwo>().next_u64()
    );
    assert_eq!(
        rng_two_sample_2,
        context.get_rng::<RandomIdTwo>().next_u64()
    );
}

#[test]
fn stream_seed_wraps() {
    assert_eq!(stream_seed(5, 7), 12);
    assert_eq!(stream_seed(u64::MAX, 2), 1);
    assert_eq!(stream_seed(u64::MAX, 0), u64::MAX);
}

#[test]
fn another_base_seed_gives_another_stream() {
    let mut context = Sim::new();
    let first = context.get_rng::<RandomIdOne>().next_u64();
    context.set_base_random_seed(1);
    let second = context.get_rng::<RandomIdOne>().next_u64();
    assert_ne!(first, second);
    context.set_base_random_seed(0);
    assert_eq!(context.get_rng::<RandomIdOne>().next_u64(), first);
}
