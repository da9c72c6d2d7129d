//! The requests that the engine puts to a remote store.
//!
//! The store keeps one sorted set per key, named by `memory_key`, one
//! hash named `memory_hash` for the payloads, and one list named
//! `current_block`. This module builds the commands; sending them is
//! left to the owner of the connection.
//!
//! The server keeps the score of a sorted set as a floating-point
//! number, which holds block numbers up to 2^53 exactly. The commands
//! carry every block number in full.

use crate::keys::{memory_key, spec_memory_key};
use crate::model::{spec_write_plan, Step};
use crate::plan::{steps_of, write_plan, Mutation};
use vstd::prelude::*;
use vstd::string::StringSliceAdditionalSpecFns;

verus! {

/// `redis::Pipeline`: a list of commands to send in one go. Of a value
/// nothing is known but what the functions of this module state.
#[verifier::external_type_specification]
#[verifier::external_body]
pub struct ExPipeline(redis::Pipeline);

/// `redis::Cmd`: one command with its arguments. Of a value nothing is
/// known but what the functions of this module state.
#[verifier::external_type_specification]
#[verifier::external_body]
pub struct ExCmd(redis::Cmd);

/// The commands queued in a pipeline, oldest first, each as the list
/// of its arguments with the command's name in front.
pub uninterp spec fn pipeline_commands(pipeline: redis::Pipeline) -> Seq<Seq<Seq<u8>>>;

/// Whether a pipeline is sent as one transaction.
pub uninterp spec fn pipeline_is_atomic(pipeline: redis::Pipeline) -> bool;

/// The positions of the commands of a pipeline whose replies are dropped.
pub uninterp spec fn pipeline_ignored(pipeline: redis::Pipeline) -> Set<int>;

/// The arguments of a command, with the command's name in front.
pub uninterp spec fn cmd_args(cmd: redis::Cmd) -> Seq<Seq<u8>>;

/// The decimal digits of a number, in ASCII, without leading zeros.
pub open spec fn decimal_digits(number: nat) -> Seq<u8>
    decreases number,
{
    if number < 10 {
        seq![(48 + number) as u8]
    } else {
        decimal_digits(number / 10).push((48 + number % 10) as u8)
    }
}

/// A number in decimal, in ASCII, with a minus sign where it is negative.
pub open spec fn decimal_text(number: int) -> Seq<u8> {
    if number < 0 {
        seq![45u8] + decimal_digits((-number) as nat)
    } else {
        decimal_digits(number as nat)
    }
}

/// The name of the hash that holds the payloads.
pub open spec fn content_name() -> Seq<u8> {
    "memory_hash".spec_bytes()
}

/// The name of the list that holds the current block.
pub open spec fn block_name() -> Seq<u8> {
    "current_block".spec_bytes()
}

/// The command that asks the remote store for one step.
pub open spec fn wire_form(step: Step) -> Seq<Seq<u8>> {
    match step {
        Step::IndexRemove { namespace, member } => seq!["ZREM".spec_bytes(), namespace, member],
        Step::IndexInsert { namespace, score, member } => seq![
            "ZADD".spec_bytes(),
            namespace,
            decimal_digits(score as nat),
            member,
        ],
        Step::ContentSet { field, value } => seq![
            "HSET".spec_bytes(),
            content_name(),
            field,
            value,
        ],
    }
}

/// The commands that ask the remote store for `steps`, in order.
pub open spec fn wire_forms(steps: Seq<Step>) -> Seq<Seq<Seq<u8>>> {
    steps.map_values(|step: Step| wire_form(step))
}

/// The command that asks for the single highest-scoring member of the
/// index of `key`, over all scores.
pub open spec fn spec_latest_query(key: Seq<u8>) -> Seq<Seq<u8>> {
    seq![
        "ZREVRANGEBYSCORE".spec_bytes(),
        spec_memory_key(key),
        "+inf".spec_bytes(),
        "-inf".spec_bytes(),
        "LIMIT".spec_bytes(),
        decimal_text(0),
        decimal_text(1),
    ]
}

/// The command that asks for the payload stored under `hash_key`.
pub open spec fn spec_payload_query(hash_key: Seq<u8>) -> Seq<Seq<u8>> {
    seq!["HGET".spec_bytes(), content_name(), hash_key]
}

/// The command that asks for every chunk of the current block.
pub open spec fn spec_block_data_query() -> Seq<Seq<u8>> {
    seq!["LRANGE".spec_bytes(), block_name(), decimal_text(0), decimal_text(-1)]
}

/// `redis::pipe`: a pipeline that holds no command, is not atomic and
/// drops no reply.
#[verifier::external_body]
fn new_pipeline() -> (pipeline: redis::Pipeline)
    ensures
        pipeline_commands(pipeline) == Seq::<Seq<Seq<u8>>>::empty(),
        !pipeline_is_atomic(pipeline),
        pipeline_ignored(pipeline) == Set::<int>::empty(),
{
    redis::pipe()
}

/// `Pipeline::atomic`: switches the pipeline to transaction mode and
/// leaves its commands as they are.
#[verifier::external_body]
fn make_atomic(pipeline: &mut redis::Pipeline)
    ensures
        pipeline_is_atomic(*final(pipeline)),
        pipeline_commands(*final(pipeline)) == pipeline_commands(*old(pipeline)),
        pipeline_ignored(*final(pipeline)) == pipeline_ignored(*old(pipeline)),
{
    pipeline.atomic();
}

/// `Pipeline::cmd`: queues a new command whose only argument so far is
/// its name.
#[verifier::external_body]
fn start_command(pipeline: &mut redis::Pipeline, name: &str)
    ensures
        pipeline_commands(*final(pipeline)) == pipeline_commands(*old(pipeline)).push(
            seq![name.spec_bytes()],
        ),
        pipeline_is_atomic(*final(pipeline)) == pipeline_is_atomic(*old(pipeline)),
        pipeline_ignored(*final(pipeline)) == pipeline_ignored(*old(pipeline)),
{
    pipeline.cmd(name);
}

/// `Pipeline::arg` with a byte string: appends the bytes, as one
/// argument, to the command queued last. The call panics on a pipeline
/// without commands, which the precondition excludes.
#[verifier::external_body]
fn push_bytes_arg(pipeline: &mut redis::Pipeline, arg: &[u8])
    requires
        pipeline_commands(*old(pipeline)).len() > 0,
    ensures
        pipeline_commands(*final(pipeline)) == pipeline_commands(*old(pipeline)).drop_last().push(
            pipeline_commands(*old(pipeline)).last().push(arg@),
        ),
        pipeline_is_atomic(*final(pipeline)) == pipeline_is_atomic(*old(pipeline)),
        pipeline_ignored(*final(pipeline)) == pipeline_ignored(*old(pipeline)),
{
    pipeline.arg(arg);
}

/// `Pipeline::arg` with a `u64`: appends the number in decimal, as one
/// argument, to the command queued last. The call panics on a pipeline
/// without commands, which the precondition excludes.
#[verifier::external_body]
fn push_number_arg(pipeline: &mut redis::Pipeline, number: u64)
    requires
        pipeline_commands(*old(pipeline)).len() > 0,
    ensures
        pipeline_commands(*final(pipeline)) == pipeline_commands(*old(pipeline)).drop_last().push(
            pipeline_commands(*old(pipeline)).last().push(decimal_digits(number as nat)),
        ),
        pipeline_is_atomic(*final(pipeline)) == pipeline_is_atomic(*old(pipeline)),
        pipeline_ignored(*final(pipeline)) == pipeline_ignored(*old(pipeline)),
{
    pipeline.arg(number);
}

/// `Pipeline::ignore`: marks the reply of the command queued last as
/// one to drop. On a pipeline without commands nothing changes.
#[verifier::external_body]
fn ignore_reply(pipeline: &mut redis::Pipeline)
    ensures
        pipeline_ignored(*final(pipeline)) == if pipeline_commands(*old(pipeline)).len() > 0 {
            pipeline_ignored(*old(pipeline)).insert(pipeline_commands(*old(pipeline)).len() - 1)
        } else {
            pipeline_ignored(*old(pipeline))
        },
        pipeline_commands(*final(pipeline)) == pipeline_commands(*old(pipeline)),
        pipeline_is_atomic(*final(pipeline)) == pipeline_is_atomic(*old(pipeline)),
{
    pipeline.ignore();
}

/// `Cmd::zrevrangebyscore_limit`: the command `ZREVRANGEBYSCORE key max
/// min LIMIT offset count`, the two numbers in decimal.
#[verifier::external_body]
fn zrevrangebyscore_limit_cmd(key: &[u8], max: &str, min: &str, offset: isize, count: isize) -> (cmd:
    redis::Cmd)
    ensures
        cmd_args(cmd) == seq![
            "ZREVRANGEBYSCORE".spec_bytes(),
            key@,
            max.spec_bytes(),
            min.spec_bytes(),
            "LIMIT".spec_bytes(),
            decimal_text(offset as int),
            decimal_text(count as int),
        ],
{
    redis::Cmd::zrevrangebyscore_limit(key, max, min, offset, count)
}

/// `Cmd::hget`: the command `HGET key field`.
#[verifier::external_body]
fn hget_cmd(key: &str, field: &[u8]) -> (cmd: redis::Cmd)
    ensures
        cmd_args(cmd) == seq!["HGET".spec_bytes(), key.spec_bytes(), field@],
{
    redis::Cmd::hget(key, field)
}

/// `Cmd::lrange`: the command `LRANGE key start stop`, the two numbers
/// in decimal.
#[verifier::external_body]
fn lrange_cmd(key: &str, start: isize, stop: isize) -> (cmd: redis::Cmd)
    ensures
        cmd_args(cmd) == seq![
            "LRANGE".spec_bytes(),
            key.spec_bytes(),
            decimal_text(start as int),
            decimal_text(stop as int),
        ],
{
    redis::Cmd::lrange(key, start, stop)
}

/// Queues the command for one step and has its reply dropped.
fn queue_step(pipeline: &mut redis::Pipeline, mutation: &Mutation)
    ensures
        pipeline_commands(*final(pipeline)) == pipeline_commands(*old(pipeline)).push(
            wire_form(mutation@),
        ),
        pipeline_ignored(*final(pipeline)) == pipeline_ignored(*old(pipeline)).insert(
            pipeline_commands(*old(pipeline)).len() as int,
        ),
        pipeline_is_atomic(*final(pipeline)) == pipeline_is_atomic(*old(pipeline)),
{
    let ghost before = pipeline_commands(*pipeline);
    match mutation {
        Mutation::IndexRemove { namespace, member } => {
            start_command(pipeline, "ZREM");
            push_bytes_arg(pipeline, namespace.as_slice());
            push_bytes_arg(pipeline, member.as_slice());
        },
        Mutation::IndexInsert { namespace, score, member } => {
            start_command(pipeline, "ZADD");
            push_bytes_arg(pipeline, namespace.as_slice());
            push_number_arg(pipeline, *score);
            push_bytes_arg(pipeline, member.as_slice());
        },
        Mutation::ContentSet { field, value } => {
            start_command(pipeline, "HSET");
            push_bytes_arg(pipeline, "memory_hash".as_bytes());
            push_bytes_arg(pipeline, field.as_slice());
            push_bytes_arg(pipeline, value.as_slice());
        },
    }
    assert(pipeline_commands(*pipeline).drop_last() =~= before);
    assert(pipeline_commands(*pipeline).last() =~= wire_form(mutation@));
    assert(pipeline_commands(*pipeline) =~= before.push(wire_form(mutation@)));
    ignore_reply(pipeline);
}

/// Builds the transaction that asks the remote store for the steps of
/// `group`: one command per step, in order, every reply dropped.
pub fn atomic_pipeline(group: &Vec<Mutation>) -> (pipeline: redis::Pipeline)
    ensures
        pipeline_is_atomic(pipeline),
        pipeline_commands(pipeline) == wire_forms(steps_of(group@)),
        pipeline_ignored(pipeline) == Set::new(|i: int| 0 <= i < group@.len()),
{
    let mut pipeline = new_pipeline();
    make_atomic(&mut pipeline);
    let mut i: usize = 0;
    assert(wire_forms(steps_of(group@).take(0)) =~= Seq::<Seq<Seq<u8>>>::empty());
    assert(pipeline_ignored(pipeline) =~= Set::new(|j: int| 0 <= j < 0));
    while i < group.len()
        invariant
            i <= group.len(),
            pipeline_is_atomic(pipeline),
            pipeline_commands(pipeline) == wire_forms(steps_of(group@).take(i as int)),
            pipeline_ignored(pipeline) == Set::new(|j: int| 0 <= j < i),
        decreases group.len() - i,
    {
        queue_step(&mut pipeline, &group[i]);
        assert(wire_forms(steps_of(group@).take(i + 1)) =~= wire_forms(
            steps_of(group@).take(i as int),
        ).push(wire_form(group@[i as int]@)));
        assert(pipeline_ignored(pipeline) =~= Set::new(|j: int| 0 <= j < i + 1));
        i += 1;
    }
    assert(steps_of(group@).take(group@.len() as int) =~= steps_of(group@));
    pipeline
}

/// Builds the transaction of a write: `ZREM`, `ZADD` and `HSET` for the
/// version of `key` at `block_number`, in that order.
pub fn write_pipeline(block_number: u64, key: &[u8], value: &[u8]) -> (pipeline: redis::Pipeline)
    ensures
        pipeline_is_atomic(pipeline),
        pipeline_commands(pipeline) == wire_forms(spec_write_plan(block_number, key@, value@)),
        pipeline_ignored(pipeline) == Set::new(|i: int| 0 <= i < 3),
{
    let plan = write_plan(block_number, key, value);
    assert(plan@.len() == steps_of(plan@).len());
    atomic_pipeline(&plan)
}

/// Builds the request for the latest version identifier of `key`.
pub fn latest_query(key: &[u8]) -> (cmd: redis::Cmd)
    ensures
        cmd_args(cmd) == spec_latest_query(key@),
{
    let namespace = memory_key(key);
    zrevrangebyscore_limit_cmd(namespace.as_slice(), "+inf", "-inf", 0, 1)
}

/// Builds the request for the payload stored under `hash_key`.
pub fn payload_query(hash_key: &[u8]) -> (cmd: redis::Cmd)
    ensures
        cmd_args(cmd) == spec_payload_query(hash_key@),
{
    hget_cmd("memory_hash", hash_key)
}

/// Builds the request for all chunks of the current block.
pub fn block_data_query() -> (cmd: redis::Cmd)
    ensures
        cmd_args(cmd) == spec_block_data_query(),
{
    lrange_cmd("current_block", 0, -1)
}

} // verus!
