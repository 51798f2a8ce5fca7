//! Chunked relay: cuts a text into messages that each stay within the size
//! limit of the outbound transport, keeping lines whole wherever a line fits.

use crate::text::{
    append_chars, blank, char_width, chars_of, encoded_len, is_blank, is_white_space,
    lemma_encoded_len_concat,
    lemma_encoded_len_push, lemma_utf16_within_encoded, size_within, string_of, utf16_len,
    utf16_within, width_of,
};
use vstd::prelude::*;

verus! {

/// Largest encoded size, in bytes, of one outbound message.
pub const LIMIT: usize = 4090;

/// One outbound message of a relayed text.
#[derive(Debug, PartialEq, Eq)]
pub struct RelayChunk {
    pub header: Option<String>,
    pub language: Option<String>,
    pub body: String,
}

/// Why a text could not be relayed.
#[derive(Debug, PartialEq, Eq, Clone, Copy)]
pub enum ChunkError {
    /// The header leaves no room for even one character of body.
    HeaderTooLong,
}

/// The characters of an optional string slice.
pub open spec fn opt_text(o: Option<&str>) -> Option<Seq<char>> {
    match o {
        Some(s) => Some(s@),
        None => None,
    }
}

/// The characters of an optional string.
pub open spec fn opt_string(o: Option<String>) -> Option<Seq<char>> {
    match o {
        Some(s) => Some(s@),
        None => None,
    }
}

/// The text of a message: the header, a colon and a line feed, then the body;
/// without a header, the body alone.
pub open spec fn rendered(header: Option<Seq<char>>, body: Seq<char>) -> Seq<char> {
    match header {
        Some(h) => h + seq![':', '\n'] + body,
        None => body,
    }
}

/// Bytes of a message that are not body: the header and its two characters of markup.
pub open spec fn overhead(header: Option<Seq<char>>) -> nat {
    match header {
        Some(h) => encoded_len(h) + 2,
        None => 0,
    }
}

impl RelayChunk {
    /// The message text of this chunk.
    pub open spec fn text(&self) -> Seq<char> {
        rendered(opt_string(self.header), self.body@)
    }

    /// Encoded size of the message text, in bytes.
    pub open spec fn size(&self) -> nat {
        encoded_len(self.text())
    }

    /// True when the message is one that the outbound transport takes: header,
    /// markup and body are no more than [`LIMIT`] bytes together.
    pub open spec fn fits(&self) -> bool {
        self.size() <= LIMIT
    }
}

/// Number of characters in the first unit of `text`: the text up to and
/// including its first line feed, cut short before the first character that
/// would take the unit past `room` bytes.
pub open spec fn first_unit_len(text: Seq<char>, room: nat) -> nat
    decreases text.len(),
{
    if text.len() == 0 {
        0
    } else if char_width(text[0]) > room {
        0
    } else if text[0] == '\n' {
        1
    } else {
        1 + first_unit_len(text.drop_first(), (room - char_width(text[0])) as nat)
    }
}

/// The units of `text`, in order: its lines, each with its line feed, a line
/// of more than `room` bytes in as few pieces as fit.
pub open spec fn units(text: Seq<char>, room: nat) -> Seq<Seq<char>>
    decreases text.len(),
{
    let k = first_unit_len(text, room);
    if text.len() == 0 || k == 0 || k > text.len() {
        Seq::empty()
    } else {
        seq![text.take(k as int)] + units(text.skip(k as int), room)
    }
}

/// Greedy packing: `acc` is what has been gathered so far; a unit that would
/// take a non-empty `acc` past `room` bytes closes it and starts the next.
pub open spec fn pack(units: Seq<Seq<char>>, room: nat, acc: Seq<char>) -> Seq<Seq<char>>
    decreases units.len(),
{
    if units.len() == 0 {
        if acc.len() == 0 {
            Seq::empty()
        } else {
            seq![acc]
        }
    } else if acc.len() > 0 && encoded_len(acc) + encoded_len(units[0]) > room {
        seq![acc] + pack(units.drop_first(), room, units[0])
    } else {
        pack(units.drop_first(), room, acc + units[0])
    }
}

/// What is gathered of `body`, accumulation by accumulation: its units,
/// packed into as few accumulations of at most `room` bytes as come about
/// when each accumulation takes every unit that still fits.
pub open spec fn gathered(body: Seq<char>, room: nat) -> Seq<Seq<char>> {
    pack(units(body, room), room, Seq::empty())
}

/// Of the accumulations, those that are sent: every one that is not blank, in order.
pub open spec fn sent(accumulations: Seq<Seq<char>>) -> Seq<Seq<char>>
    decreases accumulations.len(),
{
    if accumulations.len() == 0 {
        Seq::empty()
    } else if is_blank(accumulations.last()) {
        sent(accumulations.drop_last())
    } else {
        sent(accumulations.drop_last()).push(accumulations.last())
    }
}

/// The bodies of the messages that relay `body` with `room` bytes for each:
/// what is gathered of it, but for the accumulations that are blank.
pub open spec fn chunk_bodies(body: Seq<char>, room: nat) -> Seq<Seq<char>> {
    sent(gathered(body, room))
}

/// The bodies of `chunks`, in order.
pub open spec fn bodies_of(chunks: Seq<RelayChunk>) -> Seq<Seq<char>> {
    Seq::new(chunks.len(), |i: int| chunks[i].body@)
}

/// The character sequences that `items` hold, in order.
pub open spec fn texts(items: Seq<Vec<char>>) -> Seq<Seq<char>> {
    Seq::new(items.len(), |i: int| items[i]@)
}

/// With room for any one character, the first unit of a non-empty text is not
/// empty, ends within the text and fits in `room` bytes.
pub proof fn lemma_first_unit(text: Seq<char>, room: nat)
    requires
        text.len() > 0,
        room >= 4,
    ensures
        1 <= first_unit_len(text, room) <= text.len(),
        encoded_len(text.take(first_unit_len(text, room) as int)) <= room,
{
    lemma_first_unit_fits(text, room);
    lemma_encoded_len_push(Seq::empty(), text[0]);
}

/// The first unit ends within the text and fits in `room` bytes.
proof fn lemma_first_unit_fits(text: Seq<char>, room: nat)
    ensures
        first_unit_len(text, room) <= text.len(),
        encoded_len(text.take(first_unit_len(text, room) as int)) <= room,
    decreases text.len(),
{
    let k = first_unit_len(text, room);
    if text.len() == 0 || char_width(text[0]) > room {
        assert(text.take(0) =~= Seq::<char>::empty());
    } else {
        let head = seq![text[0]];
        lemma_encoded_len_push(Seq::empty(), text[0]);
        assert(Seq::<char>::empty().push(text[0]) =~= head);
        if text[0] == '\n' {
            assert(text.take(1) =~= head);
        } else {
            let rest = text.drop_first();
            let less = (room - char_width(text[0])) as nat;
            lemma_first_unit_fits(rest, less);
            let j = first_unit_len(rest, less);
            assert(text.take(k as int) =~= head + rest.take(j as int));
            lemma_encoded_len_concat(head, rest.take(j as int));
        }
    }
}

/// A line that fits in `room` bytes is one unit: nothing cuts it short.
pub proof fn lemma_line_kept_whole(text: Seq<char>, room: nat, n: int)
    requires
        0 <= n < text.len(),
        text[n] == '\n',
        forall|i: int| 0 <= i < n ==> text[i] != '\n',
        encoded_len(text.take(n + 1)) <= room,
    ensures
        first_unit_len(text, room) == n + 1,
    decreases n,
{
    let head = seq![text[0]];
    lemma_encoded_len_push(Seq::empty(), text[0]);
    assert(Seq::<char>::empty().push(text[0]) =~= head);
    assert(text.take(n + 1) =~= head + text.drop_first().take(n));
    lemma_encoded_len_concat(head, text.drop_first().take(n));
    if n > 0 {
        let rest = text.drop_first();
        assert(rest[n - 1] == text[n]);
        assert forall|i: int| 0 <= i < n - 1 implies rest[i] != '\n' by {
            assert(rest[i] == text[i + 1]);
        }
        lemma_line_kept_whole(rest, (room - char_width(text[0])) as nat, n - 1);
    }
}

/// The units of a text, laid end to end, are the text; none is empty and each
/// fits in `room` bytes.
pub proof fn lemma_units(text: Seq<char>, room: nat)
    requires
        room >= 4,
    ensures
        units(text, room).flatten() == text,
        forall|i: int|
            0 <= i < units(text, room).len() ==> (#[trigger] units(text, room)[i]).len() > 0
                && encoded_len(units(text, room)[i]) <= room,
    decreases text.len(),
{
    if text.len() == 0 {
        assert(units(text, room).flatten() =~= text);
    } else {
        lemma_first_unit(text, room);
        let k = first_unit_len(text, room) as int;
        let first = seq![text.take(k)];
        let others = units(text.skip(k), room);
        lemma_units(text.skip(k), room);
        assert(units(text, room) == first + others);
        assert((first + others).drop_first() =~= others);
        assert((first + others).flatten() =~= text.take(k) + others.flatten());
        assert(text.take(k) + text.skip(k) =~= text);
        assert forall|i: int| 0 <= i < units(text, room).len() implies (#[trigger] units(
            text,
            room,
        )[i]).len() > 0 && encoded_len(units(text, room)[i]) <= room by {
            if i > 0 {
                assert(units(text, room)[i] == others[i - 1]);
            }
        }
    }
}

/// Packing loses nothing: the packed chunks, laid end to end, are what was
/// gathered before followed by the units.
pub proof fn lemma_pack_flatten(units: Seq<Seq<char>>, room: nat, acc: Seq<char>)
    ensures
        pack(units, room, acc).flatten() == acc + units.flatten(),
    decreases units.len(),
{
    if units.len() == 0 {
        if acc.len() == 0 {
            assert(pack(units, room, acc).flatten() =~= acc + units.flatten());
        } else {
            let one = seq![acc];
            assert(one.drop_first() =~= Seq::<Seq<char>>::empty());
            assert(one.flatten() =~= acc + one.drop_first().flatten());
            assert(pack(units, room, acc).flatten() =~= acc + units.flatten());
        }
    } else if acc.len() > 0 && encoded_len(acc) + encoded_len(units[0]) > room {
        let tail = pack(units.drop_first(), room, units[0]);
        lemma_pack_flatten(units.drop_first(), room, units[0]);
        assert((seq![acc] + tail).drop_first() =~= tail);
        assert((seq![acc] + tail).flatten() =~= acc + tail.flatten());
        assert(units.flatten() =~= units[0] + units.drop_first().flatten());
    } else {
        lemma_pack_flatten(units.drop_first(), room, acc + units[0]);
        assert(units.flatten() =~= units[0] + units.drop_first().flatten());
        assert(pack(units, room, acc).flatten() =~= acc + units.flatten());
    }
}

/// Packing respects the limit: where what was gathered and every unit fit in
/// `room` bytes, so does every packed chunk, and none is empty.
pub proof fn lemma_pack_bounded(units: Seq<Seq<char>>, room: nat, acc: Seq<char>)
    requires
        encoded_len(acc) <= room,
        forall|i: int| 0 <= i < units.len() ==> encoded_len(#[trigger] units[i]) <= room,
    ensures
        forall|i: int|
            0 <= i < pack(units, room, acc).len() ==> encoded_len(
                #[trigger] pack(units, room, acc)[i],
            ) <= room,
    decreases units.len(),
{
    if units.len() == 0 {
        if acc.len() > 0 {
            assert(pack(units, room, acc)[0] == acc);
        }
    } else if acc.len() > 0 && encoded_len(acc) + encoded_len(units[0]) > room {
        assert(encoded_len(units[0]) <= room);
        assert forall|i: int| 0 <= i < units.drop_first().len() implies encoded_len(
            #[trigger] units.drop_first()[i],
        ) <= room by {
            assert(units.drop_first()[i] == units[i + 1]);
        }
        lemma_pack_bounded(units.drop_first(), room, units[0]);
        let tail = pack(units.drop_first(), room, units[0]);
        assert forall|i: int| 0 <= i < pack(units, room, acc).len() implies encoded_len(
            #[trigger] pack(units, room, acc)[i],
        ) <= room by {
            if i > 0 {
                assert(pack(units, room, acc)[i] == tail[i - 1]);
            }
        }
    } else {
        assert(encoded_len(units[0]) <= room);
        lemma_encoded_len_concat(acc, units[0]);
        if acc.len() == 0 {
            assert(acc + units[0] =~= units[0]);
        }
        assert forall|i: int| 0 <= i < units.drop_first().len() implies encoded_len(
            #[trigger] units.drop_first()[i],
        ) <= room by {
            assert(units.drop_first()[i] == units[i + 1]);
        }
        lemma_pack_bounded(units.drop_first(), room, acc + units[0]);
        assert(pack(units, room, acc) == pack(units.drop_first(), room, acc + units[0]));
    }
}

/// What has been gathered opens the first packed chunk.
proof fn lemma_pack_head(units: Seq<Seq<char>>, room: nat, acc: Seq<char>)
    requires
        acc.len() > 0,
    ensures
        pack(units, room, acc).len() > 0,
        encoded_len(pack(units, room, acc)[0]) >= encoded_len(acc),
    decreases units.len(),
{
    if units.len() == 0 {
    } else if encoded_len(acc) + encoded_len(units[0]) > room {
    } else {
        lemma_pack_head(units.drop_first(), room, acc + units[0]);
        lemma_encoded_len_concat(acc, units[0]);
    }
}

/// Packing wastes no message: no two neighbouring chunks would fit into one.
pub proof fn lemma_pack_tight(units: Seq<Seq<char>>, room: nat, acc: Seq<char>)
    requires
        forall|i: int| 0 <= i < units.len() ==> (#[trigger] units[i]).len() > 0,
    ensures
        forall|i: int|
            0 <= i && i + 1 < pack(units, room, acc).len() ==> encoded_len(
                #[trigger] pack(units, room, acc)[i],
            ) + encoded_len(pack(units, room, acc)[i + 1]) > room,
    decreases units.len(),
{
    if units.len() == 0 {
    } else {
        let rest = units.drop_first();
        assert forall|i: int| 0 <= i < rest.len() implies (#[trigger] rest[i]).len() > 0 by {
            assert(rest[i] == units[i + 1]);
        }
        if acc.len() > 0 && encoded_len(acc) + encoded_len(units[0]) > room {
            let tail = pack(rest, room, units[0]);
            lemma_pack_tight(rest, room, units[0]);
            lemma_pack_head(rest, room, units[0]);
            let all = pack(units, room, acc);
            assert(all == seq![acc] + tail);
            assert forall|i: int| 0 <= i && i + 1 < all.len() implies encoded_len(
                #[trigger] all[i],
            ) + encoded_len(all[i + 1]) > room by {
                if i == 0 {
                    assert(all[0] == acc);
                    assert(all[1] == tail[0]);
                } else {
                    assert(all[i] == tail[i - 1]);
                    assert(all[i + 1] == tail[i]);
                }
            }
        } else {
            lemma_pack_tight(rest, room, acc + units[0]);
            assert(pack(units, room, acc) == pack(rest, room, acc + units[0]));
        }
    }
}

/// Gathering wastes no message: no two neighbouring accumulations would fit
/// into one message.
pub proof fn lemma_gathered_tight(body: Seq<char>, room: nat)
    requires
        room >= 4,
    ensures
        forall|i: int|
            0 <= i && i + 1 < gathered(body, room).len() ==> encoded_len(
                #[trigger] gathered(body, room)[i],
            ) + encoded_len(gathered(body, room)[i + 1]) > room,
{
    lemma_units(body, room);
    lemma_pack_tight(units(body, room), room, Seq::empty());
}

/// What is sent is not blank, and is no larger than the largest accumulation.
pub proof fn lemma_sent(accumulations: Seq<Seq<char>>, room: nat)
    requires
        forall|i: int|
            0 <= i < accumulations.len() ==> encoded_len(#[trigger] accumulations[i]) <= room,
    ensures
        sent(accumulations).len() <= accumulations.len(),
        forall|i: int|
            0 <= i < sent(accumulations).len() ==> !is_blank(#[trigger] sent(accumulations)[i])
                && encoded_len(sent(accumulations)[i]) <= room,
    decreases accumulations.len(),
{
    if accumulations.len() > 0 {
        let before = accumulations.drop_last();
        assert forall|i: int| 0 <= i < before.len() implies encoded_len(#[trigger] before[i])
            <= room by {
            assert(before[i] == accumulations[i]);
        }
        lemma_sent(before, room);
        assert(encoded_len(accumulations[accumulations.len() - 1]) <= room);
    }
}

/// Nothing is sent exactly where every accumulation is blank; where none is
/// blank, every accumulation is sent.
pub proof fn lemma_sent_all_or_nothing(accumulations: Seq<Seq<char>>)
    ensures
        sent(accumulations).len() == 0 <==> forall|i: int|
            0 <= i < accumulations.len() ==> is_blank(#[trigger] accumulations[i]),
        (forall|i: int| 0 <= i < accumulations.len() ==> !is_blank(#[trigger] accumulations[i]))
            ==> sent(accumulations) == accumulations,
    decreases accumulations.len(),
{
    if accumulations.len() > 0 {
        let before = accumulations.drop_last();
        lemma_sent_all_or_nothing(before);
        let last = accumulations.last();
        assert(last == accumulations[accumulations.len() - 1]);
        if sent(accumulations).len() == 0 {
            assert forall|i: int| 0 <= i < accumulations.len() implies is_blank(
                #[trigger] accumulations[i],
            ) by {
                if i < before.len() {
                    assert(before[i] == accumulations[i]);
                }
            }
        }
        if forall|i: int| 0 <= i < accumulations.len() ==> is_blank(#[trigger] accumulations[i]) {
            assert forall|i: int| 0 <= i < before.len() implies is_blank(#[trigger] before[i]) by {
                assert(before[i] == accumulations[i]);
            }
        }
        if forall|i: int| 0 <= i < accumulations.len() ==> !is_blank(#[trigger] accumulations[i]) {
            assert forall|i: int| 0 <= i < before.len() implies !is_blank(#[trigger] before[i]) by {
                assert(before[i] == accumulations[i]);
            }
            assert(before.push(last) =~= accumulations);
        }
    }
}

/// Texts laid end to end are blank exactly where each of them is.
pub proof fn lemma_blank_flatten(parts: Seq<Seq<char>>)
    ensures
        is_blank(parts.flatten()) <==> forall|i: int|
            0 <= i < parts.len() ==> is_blank(#[trigger] parts[i]),
    decreases parts.len(),
{
    if parts.len() > 0 {
        let first = parts.first();
        let rest = parts.drop_first();
        lemma_blank_flatten(rest);
        let whole = parts.flatten();
        assert(whole =~= first + rest.flatten());
        if is_blank(whole) {
            assert forall|k: int| 0 <= k < first.len() implies is_white_space(
                #[trigger] first[k],
            ) by {
                assert(whole[k] == first[k]);
            }
            assert forall|k: int| 0 <= k < rest.flatten().len() implies is_white_space(
                #[trigger] rest.flatten()[k],
            ) by {
                assert(whole[first.len() + k] == rest.flatten()[k]);
            }
            assert forall|i: int| 0 <= i < parts.len() implies is_blank(#[trigger] parts[i]) by {
                if i > 0 {
                    assert(rest[i - 1] == parts[i]);
                }
            }
        }
        if forall|i: int| 0 <= i < parts.len() ==> is_blank(#[trigger] parts[i]) {
            assert(is_blank(parts[0]));
            assert forall|i: int| 0 <= i < rest.len() implies is_blank(#[trigger] rest[i]) by {
                assert(rest[i] == parts[i + 1]);
            }
            assert forall|k: int| 0 <= k < whole.len() implies is_white_space(
                #[trigger] whole[k],
            ) by {
                if k < first.len() {
                    assert(whole[k] == first[k]);
                } else {
                    assert(whole[k] == rest.flatten()[k - first.len()]);
                }
            }
        }
    } else {
        assert(parts.flatten() =~= Seq::<char>::empty());
    }
}

/// Every message body of a relayed text fits in `room` bytes and is not blank.
pub proof fn lemma_chunk_bodies_bounded(body: Seq<char>, room: nat)
    requires
        room >= 4,
    ensures
        forall|i: int|
            0 <= i < chunk_bodies(body, room).len() ==> !is_blank(
                #[trigger] chunk_bodies(body, room)[i],
            ) && encoded_len(chunk_bodies(body, room)[i]) <= room,
{
    lemma_units(body, room);
    lemma_encoded_len_concat(Seq::empty(), Seq::empty());
    lemma_pack_bounded(units(body, room), room, Seq::empty());
    lemma_sent(gathered(body, room), room);
}

/// Gathering loses nothing: the accumulations, laid end to end, are the text.
/// What is not sent of them is blank.
pub proof fn lemma_gathered_whole(body: Seq<char>, room: nat)
    requires
        room >= 4,
    ensures
        gathered(body, room).flatten() == body,
{
    lemma_units(body, room);
    lemma_pack_flatten(units(body, room), room, Seq::empty());
    assert(Seq::<char>::empty() + units(body, room).flatten() =~= body);
}

/// A text is relayed in at least one message unless it is blank, and a blank
/// text in none.
pub proof fn lemma_sent_unless_blank(body: Seq<char>, room: nat)
    requires
        room >= 4,
    ensures
        chunk_bodies(body, room).len() == 0 <==> is_blank(body),
{
    lemma_gathered_whole(body, room);
    lemma_blank_flatten(gathered(body, room));
    lemma_sent_all_or_nothing(gathered(body, room));
}

/// No packed chunk is blank where no unit is.
proof fn lemma_pack_not_blank(units: Seq<Seq<char>>, room: nat, acc: Seq<char>)
    requires
        forall|i: int| 0 <= i < units.len() ==> !is_blank(#[trigger] units[i]),
        acc.len() > 0 ==> !is_blank(acc),
    ensures
        forall|i: int|
            0 <= i < pack(units, room, acc).len() ==> !is_blank(
                #[trigger] pack(units, room, acc)[i],
            ),
    decreases units.len(),
{
    if units.len() == 0 {
    } else {
        let rest = units.drop_first();
        assert(!is_blank(units[0]));
        assert forall|i: int| 0 <= i < rest.len() implies !is_blank(#[trigger] rest[i]) by {
            assert(rest[i] == units[i + 1]);
        }
        if acc.len() > 0 && encoded_len(acc) + encoded_len(units[0]) > room {
            let tail = pack(rest, room, units[0]);
            lemma_pack_not_blank(rest, room, units[0]);
            assert forall|i: int| 0 <= i < pack(units, room, acc).len() implies !is_blank(
                #[trigger] pack(units, room, acc)[i],
            ) by {
                if i > 0 {
                    assert(pack(units, room, acc)[i] == tail[i - 1]);
                }
            }
        } else {
            let more = acc + units[0];
            let k = choose|k: int| 0 <= k < units[0].len() && !is_white_space(units[0][k]);
            assert(more[acc.len() + k] == units[0][k]);
            lemma_pack_not_blank(rest, room, more);
            assert(pack(units, room, acc) == pack(rest, room, more));
        }
    }
}

/// A text of which every line, and every piece of a line that is cut, holds
/// more than white space is relayed whole: its message bodies, laid end to
/// end, are the text.
pub proof fn lemma_relayed_whole(body: Seq<char>, room: nat)
    requires
        room >= 4,
        forall|i: int| 0 <= i < units(body, room).len() ==> !is_blank(#[trigger] units(body, room)[i]),
    ensures
        chunk_bodies(body, room) == gathered(body, room),
        chunk_bodies(body, room).flatten() == body,
{
    lemma_gathered_whole(body, room);
    lemma_pack_not_blank(units(body, room), room, Seq::empty());
    lemma_sent_all_or_nothing(gathered(body, room));
}

/// The size of a message is the overhead of its header plus the size of its body.
pub proof fn lemma_rendered_size(header: Option<Seq<char>>, body: Seq<char>)
    ensures
        encoded_len(rendered(header, body)) == overhead(header) + encoded_len(body),
{
    match header {
        Some(h) => {
            let markup = seq![':', '\n'];
            lemma_encoded_len_push(Seq::empty(), ':');
            lemma_encoded_len_push(seq![':'], '\n');
            assert(Seq::<char>::empty().push(':') =~= seq![':']);
            assert(seq![':'].push('\n') =~= markup);
            assert(encoded_len(Seq::<char>::empty()) == 0);
            assert(char_width(':') == 1);
            assert(char_width('\n') == 1);
            lemma_encoded_len_concat(h, markup);
            lemma_encoded_len_concat(h + markup, body);
        },
        None => {},
    }
}

/// Cuts `chars` into its units.
fn split_units(chars: &Vec<char>, room: usize) -> (out: Vec<Vec<char>>)
    requires
        room >= 4,
    ensures
        texts(out@) == units(chars@, room as nat),
{
    let mut out: Vec<Vec<char>> = Vec::new();
    let mut i: usize = 0;
    proof {
        assert(chars@.skip(0) =~= chars@);
        assert(texts(out@) + units(chars@, room as nat) =~= units(chars@, room as nat));
    }
    while i < chars.len()
        invariant
            i <= chars.len(),
            room >= 4,
            units(chars@, room as nat) == texts(out@) + units(chars@.skip(i as int), room as nat),
        decreases chars.len() - i,
    {
        let ghost rest = chars@.skip(i as int);
        let mut unit: Vec<char> = Vec::new();
        let mut used: usize = 0;
        let mut j: usize = i;
        let mut open = true;
        proof {
            assert(rest.skip(0) =~= rest);
            assert(rest.take(0) =~= Seq::<char>::empty());
        }
        while open && j < chars.len()
            invariant
                i <= j <= chars.len(),
                used <= room,
                rest == chars@.skip(i as int),
                unit@ == rest.take(j - i),
                open ==> first_unit_len(rest, room as nat) == (j - i) + first_unit_len(
                    rest.skip(j - i),
                    (room - used) as nat,
                ),
                !open ==> first_unit_len(rest, room as nat) == j - i,
            decreases (if open { 1int } else { 0int }) + chars.len() - j,
        {
            let c = chars[j];
            let w = width_of(c);
            proof {
                assert(rest.skip(j - i)[0] == c);
                assert(rest.skip(j - i).drop_first() =~= rest.skip(j - i + 1));
            }
            if w > room - used {
                open = false;
            } else {
                unit.push(c);
                proof {
                    assert(rest.take(j - i + 1) =~= rest.take(j - i).push(c));
                }
                used += w;
                j += 1;
                if c == '\n' {
                    open = false;
                }
            }
        }
        proof {
            lemma_first_unit(rest, room as nat);
            let k = first_unit_len(rest, room as nat) as int;
            assert(k == j - i);
            assert(rest.skip(k) =~= chars@.skip(j as int));
            assert(texts(out@.push(unit)) =~= texts(out@) + seq![rest.take(k)]);
        }
        out.push(unit);
        i = j;
    }
    proof {
        assert(texts(out@) + Seq::<Seq<char>>::empty() =~= texts(out@));
    }
    out
}

/// Packs units into chunks of at most `room` bytes.
fn pack_units(units: &Vec<Vec<char>>, room: usize) -> (chunks: Vec<Vec<char>>)
    requires
        room <= LIMIT,
        forall|i: int| 0 <= i < units.len() ==> encoded_len(#[trigger] texts(units@)[i]) <= room,
    ensures
        texts(chunks@) == pack(texts(units@), room as nat, Seq::empty()),
{
    let mut chunks: Vec<Vec<char>> = Vec::new();
    let mut acc: Vec<char> = Vec::new();
    let mut acc_size: usize = 0;
    let mut i: usize = 0;
    proof {
        assert(texts(units@).skip(0) =~= texts(units@));
        assert(texts(chunks@) + pack(texts(units@), room as nat, Seq::empty()) =~= pack(
            texts(units@),
            room as nat,
            Seq::empty(),
        ));
    }
    while i < units.len()
        invariant
            i <= units.len(),
            room <= LIMIT,
            acc_size == encoded_len(acc@),
            acc_size <= room,
            forall|i: int|
                0 <= i < units.len() ==> encoded_len(#[trigger] texts(units@)[i]) <= room,
            pack(texts(units@), room as nat, Seq::empty()) == texts(chunks@) + pack(
                texts(units@).skip(i as int),
                room as nat,
                acc@,
            ),
        decreases units.len() - i,
    {
        let ghost rest = texts(units@).skip(i as int);
        let ghost before = texts(chunks@);
        let ghost gathered = acc@;
        proof {
            assert(rest[0] == units@[i as int]@);
            assert(texts(units@)[i as int] == units@[i as int]@);
            assert(rest.drop_first() =~= texts(units@).skip(i + 1));
        }
        let size = match size_within(&units[i], room) {
            Some(n) => n,
            None => {
                assert(false);
                0
            },
        };
        if acc.len() > 0 && acc_size + size > room {
            chunks.push(acc);
            acc = Vec::new();
            append_chars(&mut acc, &units[i]);
            acc_size = size;
            proof {
                assert(acc@ =~= rest[0]);
                assert(texts(chunks@) =~= before + seq![gathered]);
                assert(before + (seq![gathered] + pack(rest.drop_first(), room as nat, rest[0]))
                    =~= texts(chunks@) + pack(rest.drop_first(), room as nat, rest[0]));
            }
        } else {
            proof {
                lemma_encoded_len_concat(acc@, rest[0]);
                if acc@.len() == 0 {
                    assert(encoded_len(acc@) == 0);
                }
            }
            append_chars(&mut acc, &units[i]);
            acc_size += size;
        }
        i += 1;
    }
    proof {
        assert(texts(units@).skip(i as int) =~= Seq::<Seq<char>>::empty());
    }
    if acc.len() > 0 {
        proof {
            assert(texts(chunks@.push(acc)) =~= texts(chunks@) + seq![acc@]);
        }
        chunks.push(acc);
    } else {
        proof {
            assert(texts(chunks@) + Seq::<Seq<char>>::empty() =~= texts(chunks@));
        }
    }
    chunks
}

/// An owned copy of an optional string slice.
pub fn owned(text: Option<&str>) -> (copy: Option<String>)
    ensures
        opt_string(copy) == opt_text(text),
{
    match text {
        Some(s) => Some(s.to_owned()),
        None => None,
    }
}

/// Cuts `body` into the messages that relay it, each under the same `header`
/// and `language`.
///
/// No message is larger than [`LIMIT`] bytes, and none is blank: what is
/// gathered of nothing but white space is not sent. A line is cut only where
/// it alone is too large for one message. Fails where the header leaves no
/// room for a body.
pub fn emit(header: Option<&str>, language: Option<&str>, body: &str) -> (result: Result<
    Vec<RelayChunk>,
    ChunkError,
>)
    ensures
        result is Err <==> overhead(opt_text(header)) + 4 > LIMIT,
        result matches Ok(chunks) ==> {
            let room = (LIMIT - overhead(opt_text(header))) as nat;
            &&& bodies_of(chunks@) == chunk_bodies(body@, room)
            &&& gathered(body@, room).flatten() == body@
            &&& chunks.len() == 0 <==> is_blank(body@)
            &&& forall|i: int|
                0 <= i < chunks.len() ==> {
                    &&& opt_string((#[trigger] chunks[i]).header) == opt_text(header)
                    &&& opt_string(chunks[i].language) == opt_text(language)
                    &&& chunks[i].fits()
                    &&& !is_blank(chunks[i].body@)
                }
        },
{
    let mut room: usize = LIMIT;
    match header {
        Some(h) => {
            let title = chars_of(h);
            match size_within(&title, LIMIT - 6) {
                Some(n) => {
                    room = LIMIT - 2 - n;
                },
                None => {
                    return Err(ChunkError::HeaderTooLong);
                },
            }
        },
        None => {},
    }
    let ghost spec_room = (LIMIT - overhead(opt_text(header))) as nat;
    assert(room == spec_room);
    let chars = chars_of(body);
    let pieces = split_units(&chars, room);
    proof {
        lemma_units(body@, spec_room);
        lemma_gathered_whole(body@, spec_room);
        lemma_sent_unless_blank(body@, spec_room);
        lemma_encoded_len_concat(Seq::empty(), Seq::empty());
        lemma_pack_bounded(units(body@, spec_room), spec_room, Seq::empty());
    }
    let packed = pack_units(&pieces, room);
    let ghost all = texts(packed@);
    let mut chunks: Vec<RelayChunk> = Vec::new();
    let mut i: usize = 0;
    proof {
        assert(all.take(0) =~= Seq::<Seq<char>>::empty());
        assert(bodies_of(chunks@) =~= sent(all.take(0)));
    }
    while i < packed.len()
        invariant
            i <= packed.len(),
            all == texts(packed@),
            all == gathered(body@, spec_room),
            spec_room + overhead(opt_text(header)) == LIMIT,
            forall|k: int| 0 <= k < all.len() ==> encoded_len(#[trigger] all[k]) <= spec_room,
            bodies_of(chunks@) == sent(all.take(i as int)),
            forall|k: int|
                0 <= k < chunks.len() ==> {
                    &&& opt_string((#[trigger] chunks[k]).header) == opt_text(header)
                    &&& opt_string(chunks[k].language) == opt_text(language)
                    &&& chunks[k].fits()
                    &&& !is_blank(chunks[k].body@)
                },
        decreases packed.len() - i,
    {
        proof {
            assert(all.take(i + 1).drop_last() =~= all.take(i as int));
            assert(all.take(i + 1).last() == packed@[i as int]@);
            assert(all[i as int] == packed@[i as int]@);
        }
        if !blank(&packed[i]) {
            let chunk = RelayChunk {
                header: owned(header),
                language: owned(language),
                body: string_of(&packed[i]),
            };
            proof {
                lemma_rendered_size(opt_text(header), chunk.body@);
                assert(bodies_of(chunks@.push(chunk)) =~= bodies_of(chunks@).push(chunk.body@));
            }
            chunks.push(chunk);
        }
        i += 1;
    }
    proof {
        assert(all.take(i as int) =~= all);
        assert(bodies_of(chunks@).len() == chunks.len());
    }
    Ok(chunks)
}

/// A stretch of a message text that is shown as code.
#[derive(Debug, PartialEq, Eq)]
pub struct CodeSpan {
    /// Where the code begins, in UTF-16 code units.
    pub offset: u16,
    /// How long the code is, in UTF-16 code units.
    pub length: u16,
    pub language: String,
}

/// A message as it is handed to the outbound transport.
#[derive(Debug, PartialEq, Eq)]
pub struct Outbound {
    pub text: String,
    /// The part of `text` to show as a code block, if any.
    pub code: Option<CodeSpan>,
}

/// Where the code of a message begins, in UTF-16 code units: behind the header
/// and its two characters of markup.
pub open spec fn code_offset(header: Option<Seq<char>>) -> nat {
    match header {
        Some(h) => utf16_len(h) + 2,
        None => 0,
    }
}

impl RelayChunk {
    /// Whether the message of this chunk is one that the outbound transport takes.
    pub fn within_limit(&self) -> (b: bool)
        ensures
            b == self.fits(),
    {
        proof {
            lemma_rendered_size(opt_string(self.header), self.body@);
        }
        let room = match &self.header {
            Some(h) => match size_within(&chars_of(h.as_str()), LIMIT - 2) {
                Some(n) => LIMIT - 2 - n,
                None => {
                    return false;
                },
            },
            None => LIMIT,
        };
        size_within(&chars_of(self.body.as_str()), room).is_some()
    }

    /// The message that carries this chunk: header, markup and body as text,
    /// and the body marked as a code block in the language of the chunk,
    /// where it has one. Offset and length of the block count UTF-16 code units.
    pub fn message(&self) -> (message: Outbound)
        requires
            self.fits(),
        ensures
            message.text@ == self.text(),
            encoded_len(message.text@) <= LIMIT,
            utf16_len(message.text@) <= LIMIT,
            self.language is None ==> message.code is None,
            self.language matches Some(l) ==> {
                &&& message.code matches Some(span)
                &&& span.language@ == l@
                &&& span.offset == code_offset(opt_string(self.header))
                &&& span.length == utf16_len(self.body@)
            },
    {
        let body = chars_of(self.body.as_str());
        let mut text: Vec<char> = Vec::new();
        let mut offset: usize = 0;
        proof {
            lemma_rendered_size(opt_string(self.header), self.body@);
            lemma_utf16_within_encoded(self.body@);
            lemma_utf16_within_encoded(self.text());
        }
        match &self.header {
            Some(h) => {
                let title = chars_of(h.as_str());
                proof {
                    lemma_utf16_within_encoded(h@);
                }
                offset = match utf16_within(&title, LIMIT) {
                    Some(n) => n + 2,
                    None => {
                        assert(false);
                        0
                    },
                };
                append_chars(&mut text, &title);
                text.push(':');
                text.push('\n');
                assert(text@ =~= h@ + seq![':', '\n']);
            },
            None => {},
        }
        append_chars(&mut text, &body);
        let code = match &self.language {
            Some(l) => {
                let length = match utf16_within(&body, LIMIT) {
                    Some(n) => n,
                    None => {
                        assert(false);
                        0
                    },
                };
                Some(CodeSpan { offset: offset as u16, length: length as u16, language: l.clone() })
            },
            None => None,
        };
        Outbound { text: string_of(&text), code }
    }
}

/// The messages that show `code` under `header`, in the order in which they
/// are sent: the code is cut as [`emit`] cuts it, and each piece is laid
/// out under the header, as a code block in `language` where one is given
/// and as plain text where none is. No message is larger than [`LIMIT`]
/// bytes, nor than as many UTF-16 code units. Fails where the header leaves
/// no room for code.
pub fn send_code(header: Option<&str>, language: Option<&str>, code: &str) -> (result: Result<
    Vec<Outbound>,
    ChunkError,
>)
    ensures
        result is Err <==> overhead(opt_text(header)) + 4 > LIMIT,
        result matches Ok(messages) ==> {
            let bodies = chunk_bodies(code@, (LIMIT - overhead(opt_text(header))) as nat);
            &&& messages.len() == bodies.len()
            &&& forall|i: int|
                0 <= i < messages.len() ==> {
                    &&& (#[trigger] messages[i]).text@ == rendered(opt_text(header), bodies[i])
                    &&& encoded_len(messages[i].text@) <= LIMIT
                    &&& utf16_len(messages[i].text@) <= LIMIT
                    &&& !is_blank(bodies[i])
                    &&& language is None ==> messages[i].code is None
                    &&& language matches Some(l) ==> {
                        &&& messages[i].code matches Some(span)
                        &&& span.language@ == l@
                        &&& span.offset == code_offset(opt_text(header))
                        &&& span.length == utf16_len(bodies[i])
                    }
                }
        },
{
    let chunks = match emit(header, language, code) {
        Ok(chunks) => chunks,
        Err(error) => {
            return Err(error);
        },
    };
    let ghost bodies = bodies_of(chunks@);
    let mut messages: Vec<Outbound> = Vec::new();
    let mut i: usize = 0;
    while i < chunks.len()
        invariant
            i <= chunks.len(),
            messages.len() == i,
            bodies == bodies_of(chunks@),
            forall|k: int|
                0 <= k < chunks.len() ==> {
                    &&& opt_string((#[trigger] chunks[k]).header) == opt_text(header)
                    &&& opt_string(chunks[k].language) == opt_text(language)
                    &&& chunks[k].fits()
                    &&& !is_blank(chunks[k].body@)
                },
            forall|k: int|
                0 <= k < i ==> {
                    &&& (#[trigger] messages[k]).text@ == rendered(opt_text(header), bodies[k])
                    &&& encoded_len(messages[k].text@) <= LIMIT
                    &&& utf16_len(messages[k].text@) <= LIMIT
                    &&& !is_blank(bodies[k])
                    &&& language is None ==> messages[k].code is None
                    &&& language matches Some(l) ==> {
                        &&& messages[k].code matches Some(span)
                        &&& span.language@ == l@
                        &&& span.offset == code_offset(opt_text(header))
                        &&& span.length == utf16_len(bodies[k])
                    }
                },
        decreases chunks.len() - i,
    {
        proof {
            assert(bodies[i as int] == chunks[i as int].body@);
        }
        messages.push(chunks[i].message());
        i += 1;
    }
    Ok(messages)
}

} // verus!} // verus!
