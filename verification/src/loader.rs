//! Bringing the kernel into memory: building the volume from its boot
//! sector, streaming the image sector by sector, and the console-driven
//! discovery loop with its user diagnostics.

use vstd::prelude::*;
use crate::block::BlockDevice;
use crate::console::{console_echo, console_run, is_accepted, is_terminator, run_rest, Console, RunResult, BUF_SIZE};
use crate::fat::{
    bpb_signature_ok, lemma_found_bounds, lemma_spec_find_same, spec_bpb, spec_find, spec_name_of,
    FileName, Volume, FILE_NAME_LEN, MAX_START_LBA,
};
use crate::serial::ByteTransport;

verus! {

/// Number of whole sectors covering `size` bytes.
pub open spec fn spec_blocks(size: u64) -> int {
    if size % 512 == 0 {
        size as int / 512
    } else {
        size as int / 512 + 1
    }
}

pub fn blocks_for(size: u64) -> (r: u64)
    ensures
        r == spec_blocks(size),
{
    if size % 512 == 0 {
        size / 512
    } else {
        size / 512 + 1
    }
}

/// Reads the volume's boot sector at `start_lba` and builds the volume.
/// `None` exactly when the boot signature is absent or the volume lies
/// too far out on the device for sector addresses to stay in range.
pub fn init_fat<D: BlockDevice>(dev: &mut D, start_lba: u64) -> (r: Option<Volume>)
    ensures
        forall|l: int| #[trigger] final(dev).sector(l) == old(dev).sector(l),
        r == (if start_lba <= MAX_START_LBA && bpb_signature_ok(
            old(dev).sector(start_lba as int),
        ) {
            Some(
                Volume { start_lba, bpb: spec_bpb(old(dev).sector(start_lba as int)) },
            )
        } else {
            Option::<Volume>::None
        }),
        r matches Some(v) ==> v.wf(),
{
    if start_lba > MAX_START_LBA {
        return None;
    }
    let mut buf: Vec<u8> = Vec::new();
    dev.read_block(start_lba, &mut buf);
    let mut volume = Volume::new(start_lba);
    if volume.init_bpb(buf.as_slice()) {
        Some(volume)
    } else {
        None
    }
}

/// Streams the kernel image: reads the `ceil(size/512)` sectors from
/// `lba` on, in order, and returns their bytes. Exactly that many sector
/// reads are issued, and every byte of the result equals the device's
/// byte at its address; in particular the first `size` bytes are the
/// file's bytes.
pub fn load_image<D: BlockDevice>(dev: &mut D, lba: u64, size: u64) -> (img: Vec<u8>)
    requires
        size < 0x1_0000_0000,
        lba <= 0xFFFF_FFFF_0000_0000,
    ensures
        forall|l: int| #[trigger] final(dev).sector(l) == old(dev).sector(l),
        final(dev).reads() == old(dev).reads() + spec_blocks(size),
        img@.len() == 512 * spec_blocks(size),
        forall|i: int| 0 <= i < img@.len() ==> img@[i] == old(dev).sector(lba + i / 512)[i % 512],
{
    let blocks = blocks_for(size);
    let mut img: Vec<u8> = Vec::new();
    let mut buf: Vec<u8> = Vec::new();
    let mut j: u64 = 0;
    while j < blocks
        invariant
            j <= blocks,
            blocks == spec_blocks(size),
            blocks <= 0x80_0000,
            lba <= 0xFFFF_FFFF_0000_0000,
            forall|l: int| #[trigger] dev.sector(l) == old(dev).sector(l),
            dev.reads() == old(dev).reads() + j,
            img@.len() == 512 * j,
            forall|i: int| 0 <= i < img@.len() ==> img@[i] == old(dev).sector(lba + i / 512)[
                i % 512
            ],
        decreases blocks - j,
    {
        dev.read_block(lba + j, &mut buf);
        img.extend_from_slice(buf.as_slice());
        proof {
            assert forall|i: int| 512 * j <= i < 512 * j + 512 implies img@[i] == old(dev).sector(
                lba + i / 512,
            )[i % 512] by {
                assert(i / 512 == j && i % 512 == i - 512 * j) by (nonlinear_arith)
                    requires
                        512 * j <= i < 512 * j + 512,
                        0 <= j,
                ;
            }
        }
        j = j + 1;
    }
    img
}

/// What the whole discovery dialogue resolves to: the editor runs over
/// the input; each terminated line that is non-empty, short enough and
/// present in the root directory ends the dialogue with that file's
/// address and size; every other outcome re-prompts on the rest of the
/// input; an exhausted input resolves to nothing.
pub open spec fn spec_session<D: BlockDevice>(vol: Volume, d: D, input: Seq<u8>) -> Option<
    (u64, u64),
>
    decreases input.len(),
{
    match console_run(Seq::empty(), 0, input) {
        RunResult::Pending { line, cursor } => None,
        RunResult::Done { line, cursor, accepted } => {
            let rest = run_rest(Seq::empty(), 0, input);
            if accepted && line.len() <= FILE_NAME_LEN + 1 && spec_find(vol, d, line) is Some {
                spec_find(vol, d, line)
            } else if rest.len() < input.len() {
                spec_session(vol, d, rest)
            } else {
                None
            }
        },
    }
}

/// A finished run always consumed at least one byte.
pub proof fn lemma_rest_shrinks(line: Seq<u8>, cursor: int, input: Seq<u8>)
    requires
        console_run(line, cursor, input) is Done,
    ensures
        run_rest(line, cursor, input).len() < input.len(),
    decreases input.len(),
{
    if input.len() > 0 {
        let ch = input[0];
        if is_terminator(ch) || (is_accepted(ch) && line.len() >= BUF_SIZE) {
        } else if is_accepted(ch) {
            lemma_rest_shrinks(
                line.take(cursor) + seq![ch] + line.skip(cursor),
                cursor + 1,
                input.skip(1),
            );
        } else if ch == 8 {
            if cursor > 0 {
                lemma_rest_shrinks(line.take(cursor - 1) + line.skip(cursor), cursor - 1, input.skip(1));
            } else {
                lemma_rest_shrinks(line, cursor, input.skip(1));
            }
        } else if ch == 27 {
            if input.len() >= 3 {
                if input[1] == 91 && input[2] == 67 && cursor < line.len() {
                    lemma_rest_shrinks(line, cursor + 1, input.skip(3));
                } else if input[1] == 91 && input[2] == 68 && cursor > 0 {
                    lemma_rest_shrinks(line, cursor - 1, input.skip(3));
                }  else {
                    lemma_rest_shrinks(line, cursor, input.skip(3));
                }
            }
        } else {
            lemma_rest_shrinks(line, cursor, input.skip(1));
        }
    }
}

/// "File name is too long!"
pub open spec fn spec_msg_name_too_long() -> Seq<u8> {
    seq![70u8, 105, 108, 101, 32, 110, 97, 109, 101, 32, 105, 115, 32, 116, 111, 111, 32, 108, 111, 110, 103, 33]
}

fn msg_name_too_long() -> (r: Vec<u8>)
    ensures
        r@ == spec_msg_name_too_long(),
{
    let r = vec![70u8, 105, 108, 101, 32, 110, 97, 109, 101, 32, 105, 115, 32, 116, 111, 111, 32, 108, 111, 110, 103, 33];
    proof {
        assert(r@ =~= spec_msg_name_too_long());
    }
    r
}

/// "Can not find kernel, please re-enter."
pub open spec fn spec_msg_not_found() -> Seq<u8> {
    seq![67u8, 97, 110, 32, 110, 111, 116, 32, 102, 105, 110, 100, 32, 107, 101, 114, 110, 101, 108, 44, 32, 112, 108, 101, 97, 115, 101, 32, 114, 101, 45, 101, 110, 116, 101, 114, 46]
}

fn msg_not_found() -> (r: Vec<u8>)
    ensures
        r@ == spec_msg_not_found(),
{
    let r = vec![67u8, 97, 110, 32, 110, 111, 116, 32, 102, 105, 110, 100, 32, 107, 101, 114, 110, 101, 108, 44, 32, 112, 108, 101, 97, 115, 101, 32, 114, 101, 45, 101, 110, 116, 101, 114, 46];
    proof {
        assert(r@ =~= spec_msg_not_found());
    }
    r
}

/// "The file name entered is invalid!"
pub open spec fn spec_msg_name_invalid() -> Seq<u8> {
    seq![84u8, 104, 101, 32, 102, 105, 108, 101, 32, 110, 97, 109, 101, 32, 101, 110, 116, 101, 114, 101, 100, 32, 105, 115, 32, 105, 110, 118, 97, 108, 105, 100, 33]
}

fn msg_name_invalid() -> (r: Vec<u8>)
    ensures
        r@ == spec_msg_name_invalid(),
{
    let r = vec![84u8, 104, 101, 32, 102, 105, 108, 101, 32, 110, 97, 109, 101, 32, 101, 110, 116, 101, 114, 101, 100, 32, 105, 115, 32, 105, 110, 118, 97, 108, 105, 100, 33];
    proof {
        assert(r@ =~= spec_msg_name_invalid());
    }
    r
}

/// "Too many characters entered, please re-enter!"
pub open spec fn spec_msg_too_many() -> Seq<u8> {
    seq![84u8, 111, 111, 32, 109, 97, 110, 121, 32, 99, 104, 97, 114, 97, 99, 116, 101, 114, 115, 32, 101, 110, 116, 101, 114, 101, 100, 44, 32, 112, 108, 101, 97, 115, 101, 32, 114, 101, 45, 101, 110, 116, 101, 114, 33]
}

fn msg_too_many() -> (r: Vec<u8>)
    ensures
        r@ == spec_msg_too_many(),
{
    let r = vec![84u8, 111, 111, 32, 109, 97, 110, 121, 32, 99, 104, 97, 114, 97, 99, 116, 101, 114, 115, 32, 101, 110, 116, 101, 114, 101, 100, 44, 32, 112, 108, 101, 97, 115, 101, 32, 114, 101, 45, 101, 110, 116, 101, 114, 33];
    proof {
        assert(r@ =~= spec_msg_too_many());
    }
    r
}

/// Everything the dialogue writes to the transport: per attempt, the
/// console's prompt and editing echo, then the diagnostic fixed for the
/// outcome — nothing for a resolved name, an empty line or an ended
/// stream — and on, until a name resolves or the input ends.
pub open spec fn spec_session_echo<D: BlockDevice>(vol: Volume, d: D, input: Seq<u8>) -> Seq<u8>
    decreases input.len(),
{
    match console_run(Seq::empty(), 0, input) {
        RunResult::Pending { line, cursor } => seq![62u8, 62u8, 32u8] + console_echo(
            Seq::empty(),
            0,
            input,
        ),
        RunResult::Done { line, cursor, accepted } => {
            let this = seq![62u8, 62u8, 32u8] + console_echo(Seq::empty(), 0, input);
            let rest = run_rest(Seq::empty(), 0, input);
            if accepted && line.len() <= FILE_NAME_LEN + 1 && spec_find(vol, d, line) is Some {
                this
            } else if !accepted && rest.len() == 0 {
                this
            } else if rest.len() < input.len() {
                let msg: Seq<u8> = if accepted {
                    if line.len() > FILE_NAME_LEN + 1 {
                        spec_msg_name_too_long() + seq![10u8]
                    } else if spec_name_of(line) is None {
                        spec_msg_name_invalid() + seq![10u8]
                    } else {
                        spec_msg_not_found() + seq![10u8]
                    }
                } else if line.len() > 0 {
                    spec_msg_too_many() + seq![10u8]
                } else {
                    Seq::empty()
                };
                this + msg + spec_session_echo(vol, d, rest)
            } else {
                this
            }
        },
    }
}

/// Sends a diagnostic line to the console's transport.
fn emit_line<T: ByteTransport>(t: &mut T, msg: &Vec<u8>)
    ensures
        final(t).incoming() == old(t).incoming(),
        final(t).emitted() == old(t).emitted() + msg@ + seq![10u8],
{
    let mut k: usize = 0;
    while k < msg.len()
        invariant
            k <= msg@.len(),
            t.incoming() == old(t).incoming(),
            t.emitted() == old(t).emitted() + msg@.take(k as int),
        decreases msg@.len() - k,
    {
        let b = msg[k];
        t.put_byte(b);
        proof {
            assert(t.emitted() =~= old(t).emitted() + msg@.take(k + 1));
        }
        k = k + 1;
    }
    t.put_byte(10);
    proof {
        assert(msg@.take(msg@.len() as int) =~= msg@);
        assert(t.emitted() =~= old(t).emitted() + msg@ + seq![10u8]);
    }
}

/// Prompts for kernel names until one resolves in the volume's root
/// directory, then streams that file's sectors and returns them; `None`
/// exactly when the dialogue resolves nothing, which happens only once
/// the input stream has ended. Over-long, ungrammatical and absent names
/// say so on the transport and re-prompt, as do overflowed lines; empty
/// lines re-prompt silently.
pub fn load_kernel<T: ByteTransport, D: BlockDevice>(
    console: &mut Console,
    t: &mut T,
    dev: &mut D,
    volume: &Volume,
) -> (r: Option<Vec<u8>>)
    requires
        old(console).wf(),
        volume.wf(),
    ensures
        final(console).wf(),
        forall|l: int| #[trigger] final(dev).sector(l) == old(dev).sector(l),
        match spec_session(*volume, *old(dev), old(t).incoming()) {
            Some(pair) => r matches Some(img) && img@.len() == 512 * spec_blocks(pair.1) && (
            forall|i: int|
                0 <= i < img@.len() ==> img@[i] == old(dev).sector(pair.0 + i / 512)[i % 512]),
            None => r is None,
        },
        final(t).emitted() == old(t).emitted() + spec_session_echo(
            *volume,
            *old(dev),
            old(t).incoming(),
        ),
        r is None ==> final(t).incoming().len() == 0,
{
    let ghost mut sent: Seq<u8> = Seq::empty();
    proof {
        assert(Seq::<u8>::empty() + sent =~= sent);
    }
    loop
        invariant
            console.wf(),
            volume.wf(),
            forall|l: int| #[trigger] dev.sector(l) == old(dev).sector(l),
            t.emitted() == old(t).emitted() + sent,
            spec_session(*volume, *old(dev), old(t).incoming()) == spec_session(
                *volume,
                *old(dev),
                t.incoming(),
            ),
            spec_session_echo(*volume, *old(dev), old(t).incoming()) == sent + spec_session_echo(
                *volume,
                *old(dev),
                t.incoming(),
            ),
        decreases t.incoming().len(),
    {
        let ghost inc0 = t.incoming();
        let line = console.wait_for_input(t);
        let ghost this = seq![62u8, 62u8, 32u8] + console_echo(Seq::empty(), 0, inc0);
        proof {
            if console_run(Seq::empty(), 0, inc0) is Done {
                lemma_rest_shrinks(Seq::empty(), 0, inc0);
            }
            assert(t.emitted() =~= old(t).emitted() + (sent + this));
        }
        match line {
            None => {
                if t.at_end() {
                    proof {
                        if console_run(Seq::empty(), 0, inc0) is Pending {
                            assert(spec_session(*volume, *old(dev), inc0) is None);
                            assert(spec_session_echo(*volume, *old(dev), inc0) == this);
                        } else {
                            let rest = run_rest(Seq::empty(), 0, inc0);
                            assert(rest.len() == 0);
                            assert(spec_session(*volume, *old(dev), rest) is None);
                            assert(spec_session(*volume, *old(dev), inc0) is None);
                            assert(spec_session_echo(*volume, *old(dev), inc0) == this);
                        }
                        assert(spec_session_echo(*volume, *old(dev), old(t).incoming()) =~= sent
                            + this);
                        assert(t.emitted() =~= old(t).emitted() + spec_session_echo(
                            *volume,
                            *old(dev),
                            old(t).incoming(),
                        ));
                    }
                    return None;
                }
                proof {
                    if console_run(Seq::empty(), 0, inc0) is Pending {
                        assert(t.incoming().len() == 0);
                        assert(false);
                    }
                    assert(spec_session(*volume, *old(dev), inc0) == spec_session(
                        *volume,
                        *old(dev),
                        t.incoming(),
                    ));
                }
                // Input remains, so the line ended here: a full buffer
                // tells an overflowing line from an empty one.
                if console.line_len() > 0 {
                    emit_line(t, &msg_too_many());
                    proof {
                        sent = sent + this + spec_msg_too_many() + seq![10u8];
                        assert(spec_session_echo(*volume, *old(dev), inc0) == this + (
                        spec_msg_too_many() + seq![10u8]) + spec_session_echo(
                            *volume,
                            *old(dev),
                            t.incoming(),
                        ));
                        assert(t.emitted() =~= old(t).emitted() + sent);
                        assert(spec_session_echo(*volume, *old(dev), old(t).incoming()) =~= sent
                            + spec_session_echo(*volume, *old(dev), t.incoming()));
                    }
                } else {
                    proof {
                        sent = sent + this;
                        assert(spec_session_echo(*volume, *old(dev), inc0) == this + Seq::<
                            u8,
                        >::empty() + spec_session_echo(*volume, *old(dev), t.incoming()));
                        assert(spec_session_echo(*volume, *old(dev), old(t).incoming()) =~= sent
                            + spec_session_echo(*volume, *old(dev), t.incoming()));
                    }
                }
            },
            Some(bytes) => {
                proof {
                    assert(console_run(Seq::empty(), 0, inc0) is Done);
                }
                if bytes.len() > FILE_NAME_LEN + 1 {
                    proof {
                        assert(spec_session(*volume, *old(dev), inc0) == spec_session(
                            *volume,
                            *old(dev),
                            t.incoming(),
                        ));
                    }
                    emit_line(t, &msg_name_too_long());
                    proof {
                        sent = sent + this + spec_msg_name_too_long() + seq![10u8];
                        assert(spec_session_echo(*volume, *old(dev), inc0) == this + (
                        spec_msg_name_too_long() + seq![10u8]) + spec_session_echo(
                            *volume,
                            *old(dev),
                            t.incoming(),
                        ));
                        assert(t.emitted() =~= old(t).emitted() + sent);
                        assert(spec_session_echo(*volume, *old(dev), old(t).incoming()) =~= sent
                            + spec_session_echo(*volume, *old(dev), t.incoming()));
                    }
                } else if FileName::from_slice(bytes.as_slice()).is_none() {
                    proof {
                        assert(spec_find(*volume, *old(dev), bytes@) is None);
                        assert(spec_session(*volume, *old(dev), inc0) == spec_session(
                            *volume,
                            *old(dev),
                            t.incoming(),
                        ));
                    }
                    emit_line(t, &msg_name_invalid());
                    proof {
                        sent = sent + this + spec_msg_name_invalid() + seq![10u8];
                        assert(spec_session_echo(*volume, *old(dev), inc0) == this + (
                        spec_msg_name_invalid() + seq![10u8]) + spec_session_echo(
                            *volume,
                            *old(dev),
                            t.incoming(),
                        ));
                        assert(t.emitted() =~= old(t).emitted() + sent);
                        assert(spec_session_echo(*volume, *old(dev), old(t).incoming()) =~= sent
                            + spec_session_echo(*volume, *old(dev), t.incoming()));
                    }
                } else {
                    let ghost pre = *dev;
                    let found = volume.find(bytes.as_slice(), dev);
                    proof {
                        lemma_spec_find_same(*volume, pre, *old(dev), bytes@);
                    }
                    match found {
                        Some((lba, size)) => {
                            proof {
                                match spec_name_of(bytes@) {
                                    Some(tgt) => lemma_found_bounds(*volume, *old(dev), tgt, 0),
                                    None => (),
                                }
                            }
                            let img = load_image(dev, lba, size);
                            proof {
                                assert(spec_session(*volume, *old(dev), inc0) == Some(
                                    (lba, size),
                                ));
                                assert(spec_session_echo(*volume, *old(dev), inc0) == this);
                                assert(spec_session_echo(*volume, *old(dev), old(t).incoming())
                                    =~= sent + this);
                                assert(t.emitted() =~= old(t).emitted() + spec_session_echo(
                                    *volume,
                                    *old(dev),
                                    old(t).incoming(),
                                ));
                            }
                            return Some(img);
                        },
                        None => {
                            proof {
                                assert(spec_find(*volume, *old(dev), bytes@) is None);
                                assert(spec_session(*volume, *old(dev), inc0) == spec_session(
                                    *volume,
                                    *old(dev),
                                    t.incoming(),
                                ));
                            }
                            emit_line(t, &msg_not_found());
                            proof {
                                sent = sent + this + spec_msg_not_found() + seq![10u8];
                                assert(spec_session_echo(*volume, *old(dev), inc0) == this + (
                                spec_msg_not_found() + seq![10u8]) + spec_session_echo(
                                    *volume,
                                    *old(dev),
                                    t.incoming(),
                                ));
                                assert(t.emitted() =~= old(t).emitted() + sent);
                                assert(spec_session_echo(*volume, *old(dev), old(t).incoming())
                                    =~= sent + spec_session_echo(*volume, *old(dev), t.incoming()));
                            }
                        },
                    }
                }
            },
        }
    }
}

} // verus!
