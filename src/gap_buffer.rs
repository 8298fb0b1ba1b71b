use vstd::prelude::*;

verus! {

/// The character that always fills the last slot of the store and marks the
/// end of the document.
pub const END_MARKER: char = '\0';

/// Relies on `String::push`: it appends the one character to the end of the
/// string.
pub assume_specification[ String::push ](string: &mut String, ch: char)
    ensures
        final(string)@ == old(string)@.push(ch),
;

/// The 0-based row and column reached after reading `s`: each line feed
/// starts a new row at column 0, any other character moves one column on.
pub open spec fn row_column(s: Seq<char>) -> (nat, nat)
    decreases s.len(),
{
    if s.len() == 0 {
        (0, 0)
    } else {
        let (row, col) = row_column(s.drop_last());
        if s.last() == '\n' {
            (row + 1, 0)
        } else {
            (row, col + 1)
        }
    }
}

/// Where a cursor move to `target` leaves the cursor of a document of
/// `len` characters: there, if it lies within the document (its end
/// included); otherwise where it was.
pub open spec fn moved_cursor(len: nat, cursor: nat, target: nat) -> nat {
    if target <= len {
        target
    } else {
        cursor
    }
}

/// Why a buffer could not be built.
#[derive(Debug, Clone, Copy, PartialEq, Eq, Structural)]
pub enum GapBufferError {
    /// A store needs at least one slot, for the end marker.
    InvalidCapacity,
}

/// A document held in one store of character slots, with a free region (the
/// gap) `[gap_start, gap_end)` kept at the cursor.
///
/// The document is `buffer[..gap_start]` followed by `buffer[gap_end..]`; its
/// last character is always the end marker, in the last slot.
pub struct GapBuffer {
    buffer: Vec<char>,
    gap_start: usize,
    gap_end: usize,
    cursor: usize,
}

impl GapBuffer {
    /// The layout every buffer keeps between operations: the gap lies inside
    /// the slots before the end marker, the marker fills the last slot, and
    /// the cursor sits at the start of the gap.
    pub closed spec fn wf(&self) -> bool {
        &&& 1 <= self.buffer@.len() <= usize::MAX
        &&& self.gap_start <= self.gap_end
        &&& self.gap_end < self.buffer@.len()
        &&& self.buffer@.last() == END_MARKER
        &&& self.cursor == self.gap_start
    }

    /// The document, end marker excluded: the slots before the gap, then
    /// those after it up to the marker.
    pub closed spec fn content(&self) -> Seq<char> {
        self.buffer@.take(self.gap_start as int)
            + self.buffer@.subrange(self.gap_end as int, self.buffer@.len() - 1)
    }

    /// The whole text, end marker included.
    pub open spec fn text(&self) -> Seq<char> {
        self.content().push(END_MARKER)
    }

    /// The cursor, as an offset into the document.
    pub closed spec fn cursor_index(&self) -> nat {
        self.cursor as nat
    }

    /// The number of slots in the store.
    pub closed spec fn capacity(&self) -> nat {
        self.buffer@.len()
    }

    /// The number of free slots, those of the gap.
    pub closed spec fn gap_len(&self) -> nat {
        (self.gap_end - self.gap_start) as nat
    }

    /// A buffer with `capacity` slots, holding the empty document.
    pub fn new(capacity: usize) -> (r: Result<GapBuffer, GapBufferError>)
        ensures
            capacity == 0 <==> r is Err,
            r matches Err(e) ==> e == GapBufferError::InvalidCapacity,
            r matches Ok(b) ==> {
                &&& b.wf()
                &&& b.content() == Seq::<char>::empty()
                &&& b.cursor_index() == 0
                &&& b.capacity() == capacity
            },
    {
        if capacity == 0 {
            return Err(GapBufferError::InvalidCapacity);
        }
        let mut buffer: Vec<char> = Vec::with_capacity(capacity);
        while buffer.len() < capacity - 1
            invariant
                buffer@.len() <= capacity - 1,
            decreases capacity - buffer@.len(),
        {
            buffer.push(' ');
        }
        buffer.push(END_MARKER);
        let b = GapBuffer { buffer, gap_start: 0, gap_end: capacity - 1, cursor: 0 };
        assert(b.content() =~= Seq::<char>::empty());
        Ok(b)
    }

    /// Where each character of the document lies in the store.
    proof fn lemma_content_index(&self)
        requires
            self.wf(),
        ensures
            self.content().len() == self.gap_start + (self.buffer@.len() - 1 - self.gap_end),
            forall|j: int|
                0 <= j < self.gap_start ==> #[trigger] self.content()[j] == self.buffer@[j],
            forall|j: int|
                self.gap_start <= j < self.content().len() ==> #[trigger] self.content()[j]
                    == self.buffer@[j + self.gap_end - self.gap_start],
    {
    }

    /// Moves the cursor, and the gap with it, to `new_cursor`. A target past
    /// the end of the document, or equal to the cursor, leaves the buffer as
    /// it is.
    pub fn move_cursor(&mut self, new_cursor: usize)
        requires
            old(self).wf(),
        ensures
            final(self).wf(),
            final(self).content() == old(self).content(),
            final(self).capacity() == old(self).capacity(),
            final(self).cursor_index() == moved_cursor(
                old(self).content().len(),
                old(self).cursor_index(),
                new_cursor as nat,
            ),
            new_cursor > old(self).content().len() || new_cursor == old(self).cursor_index()
                ==> *final(self) == *old(self),
    {
        proof {
            self.lemma_content_index();
        }
        if new_cursor > self.length() - 1 {
            return;
        }
        if new_cursor == self.cursor {
            return;
        }
        let ghost before = *self;
        if new_cursor < self.cursor {
            // Slide the gap left: the characters just before it go to its end.
            let shift = self.cursor - new_cursor;
            let mut i: usize = 0;
            while i < shift
                invariant
                    before.wf(),
                    shift <= before.gap_start,
                    i <= shift,
                    self.gap_start == before.gap_start,
                    self.gap_end == before.gap_end,
                    self.cursor == before.cursor,
                    self.buffer@.len() == before.buffer@.len(),
                    forall|j: int|
                        0 <= j < self.gap_end - i ==> #[trigger] self.buffer@[j] == before.buffer@[j],
                    forall|j: int|
                        self.gap_end <= j < self.buffer@.len() ==> #[trigger] self.buffer@[j]
                            == before.buffer@[j],
                    forall|j: int|
                        self.gap_end - i <= j < self.gap_end ==> #[trigger] self.buffer@[j]
                            == before.buffer@[j - self.gap_end + self.gap_start],
                decreases shift - i,
            {
                let c = self.buffer[self.gap_start - 1 - i];
                self.buffer[self.gap_end - 1 - i] = c;
                i = i + 1;
            }
            self.gap_start = self.gap_start - shift;
            self.gap_end = self.gap_end - shift;
            self.cursor = self.cursor - shift;
        } else {
            // Slide the gap right: the characters just after it go to its start.
            let shift = new_cursor - self.cursor;
            let mut i: usize = 0;
            while i < shift
                invariant
                    before.wf(),
                    before.gap_end + shift < before.buffer@.len(),
                    i <= shift,
                    self.gap_start == before.gap_start,
                    self.gap_end == before.gap_end,
                    self.cursor == before.cursor,
                    self.buffer@.len() == before.buffer@.len(),
                    forall|j: int|
                        0 <= j < self.gap_start ==> #[trigger] self.buffer@[j] == before.buffer@[j],
                    forall|j: int|
                        self.gap_start + i <= j < self.buffer@.len() ==> #[trigger] self.buffer@[j]
                            == before.buffer@[j],
                    forall|j: int|
                        self.gap_start <= j < self.gap_start + i ==> #[trigger] self.buffer@[j]
                            == before.buffer@[j + self.gap_end - self.gap_start],
                decreases shift - i,
            {
                let c = self.buffer[self.gap_end + i];
                self.buffer[self.gap_start + i] = c;
                i = i + 1;
            }
            self.gap_start = self.gap_start + shift;
            self.gap_end = self.gap_end + shift;
            self.cursor = self.cursor + shift;
        }
        proof {
            before.lemma_content_index();
            self.lemma_content_index();
            assert(self.content() =~= before.content());
        }
    }

    /// Writes `ch` at the cursor and moves the cursor past it. A full store
    /// is first doubled.
    pub fn insert(&mut self, ch: char)
        requires
            old(self).wf(),
            old(self).content().len() + 1 < old(self).capacity() || old(self).capacity() * 2
                <= usize::MAX,
        ensures
            final(self).wf(),
            final(self).content() == old(self).content().insert(old(self).cursor_index() as int, ch),
            final(self).content().len() == old(self).content().len() + 1,
            final(self).cursor_index() == old(self).cursor_index() + 1,
            final(self).capacity() == if old(self).content().len() + 1 < old(self).capacity() {
                old(self).capacity()
            } else {
                old(self).capacity() * 2
            },
    {
        proof {
            self.lemma_content_index();
        }
        if self.gap_start == self.gap_end {
            self.resize();
        }
        let ghost before = *self;
        proof {
            before.lemma_content_index();
        }
        self.buffer[self.gap_start] = ch;
        self.gap_start = self.gap_start + 1;
        self.cursor = self.cursor + 1;
        proof {
            self.lemma_content_index();
            assert(self.content() =~= before.content().insert(before.cursor as int, ch));
        }
    }

    /// Deletes the character before the cursor and returns it; at the start
    /// of the document there is none, and the buffer stays as it is.
    pub fn remove(&mut self) -> (r: Option<char>)
        requires
            old(self).wf(),
        ensures
            final(self).wf(),
            old(self).cursor_index() == 0 ==> r is None && *final(self) == *old(self),
            old(self).cursor_index() > 0 ==> {
                let at = old(self).cursor_index() - 1;
                &&& r == Some(old(self).content()[at])
                &&& final(self).content() == old(self).content().remove(at)
                &&& final(self).content().len() == old(self).content().len() - 1
                &&& final(self).cursor_index() == at
                &&& final(self).capacity() == old(self).capacity()
            },
    {
        if self.cursor == 0 {
            return None;
        }
        let ghost before = *self;
        proof {
            before.lemma_content_index();
        }
        self.cursor = self.cursor - 1;
        self.gap_start = self.gap_start - 1;
        let removed = self.buffer[self.cursor];
        self.buffer[self.cursor] = ' ';
        proof {
            self.lemma_content_index();
            assert(self.content() =~= before.content().remove(self.cursor as int));
        }
        Some(removed)
    }

    /// Doubles the store. The characters before the gap keep their slots,
    /// those after it (the end marker among them) move to the end of the new
    /// store, and the gap takes up the slots in between.
    fn resize(&mut self)
        requires
            old(self).wf(),
            old(self).capacity() * 2 <= usize::MAX,
        ensures
            final(self).wf(),
            final(self).content() == old(self).content(),
            final(self).cursor_index() == old(self).cursor_index(),
            final(self).capacity() == old(self).capacity() * 2,
            final(self).content().len() + 1 < final(self).capacity(),
    {
        let ghost before = *self;
        proof {
            before.lemma_content_index();
        }
        let old_capacity = self.buffer.len();
        let new_capacity = old_capacity * 2;
        let gap_size = new_capacity - old_capacity + self.gap_end - self.gap_start;
        let mut new_buffer: Vec<char> = Vec::with_capacity(new_capacity);
        let mut i: usize = 0;
        while i < self.gap_start
            invariant
                *self == before,
                before.wf(),
                gap_size == 2 * before.buffer@.len() - before.buffer@.len() + before.gap_end - before.gap_start,
                i <= self.gap_start,
                new_buffer@ == self.buffer@.take(i as int),
            decreases self.gap_start - i,
        {
            new_buffer.push(self.buffer[i]);
            i = i + 1;
            assert(new_buffer@ =~= self.buffer@.take(i as int));
        }
        let mut k: usize = 0;
        while k < gap_size
            invariant
                *self == before,
                before.wf(),
                gap_size == 2 * before.buffer@.len() - before.buffer@.len() + before.gap_end - before.gap_start,
                k <= gap_size,
                new_buffer@.len() == self.gap_start + k,
                forall|j: int| 0 <= j < self.gap_start ==> #[trigger] new_buffer@[j] == self.buffer@[j],
            decreases gap_size - k,
        {
            new_buffer.push(' ');
            k = k + 1;
        }
        let mut i: usize = self.gap_end;
        while i < old_capacity
            invariant
                *self == before,
                before.wf(),
                gap_size == 2 * before.buffer@.len() - before.buffer@.len() + before.gap_end - before.gap_start,
                old_capacity == self.buffer@.len(),
                self.gap_end <= i <= old_capacity,
                new_buffer@.len() == self.gap_start + gap_size + (i - self.gap_end),
                forall|j: int| 0 <= j < self.gap_start ==> #[trigger] new_buffer@[j] == self.buffer@[j],
                forall|j: int|
                    self.gap_end <= j < i ==> #[trigger] new_buffer@[j + gap_size + self.gap_start
                        - self.gap_end] == self.buffer@[j],
            decreases old_capacity - i,
        {
            new_buffer.push(self.buffer[i]);
            i = i + 1;
        }
        proof {
            let last = old_capacity - 1;
            assert(new_buffer@[last + gap_size + self.gap_start - self.gap_end] == before.buffer@[last]);
        }
        self.gap_end = self.gap_start + gap_size;
        self.buffer = new_buffer;
        proof {
            self.lemma_content_index();
            assert forall|j: int| 0 <= j < before.content().len() implies self.content()[j]
                == before.content()[j] by {
                if j >= self.gap_start {
                    let from = j + before.gap_end - before.gap_start;
                    assert(self.buffer@[from + gap_size + before.gap_start - before.gap_end]
                        == before.buffer@[from]);
                }
            }
            assert(self.content() =~= before.content());
        }
    }

    /// Empties the document: the gap takes up every slot before the end
    /// marker and the cursor goes back to the start.
    pub fn clear(&mut self)
        requires
            old(self).wf(),
        ensures
            final(self).wf(),
            final(self).content() == Seq::<char>::empty(),
            final(self).cursor_index() == 0,
            final(self).capacity() == old(self).capacity(),
    {
        let buffer_len = self.buffer.len();
        self.gap_start = 0;
        self.gap_end = buffer_len - 1;
        self.cursor = 0;
        let mut i: usize = 0;
        while i < buffer_len - 1
            invariant
                buffer_len == self.buffer@.len(),
                1 <= buffer_len <= usize::MAX,
                self.gap_start == 0,
                self.gap_end == buffer_len - 1,
                self.cursor == 0,
                i <= buffer_len - 1,
            decreases buffer_len - 1 - i,
        {
            self.buffer[i] = ' ';
            i = i + 1;
        }
        self.buffer[buffer_len - 1] = END_MARKER;
        assert(self.content() =~= Seq::<char>::empty());
    }

    /// The row and column of the cursor, both counted from 0.
    pub fn get_cursor_position(&self) -> (r: (usize, usize))
        requires
            self.wf(),
        ensures
            r.0 == row_column(self.content().take(self.cursor_index() as int)).0,
            r.1 == row_column(self.content().take(self.cursor_index() as int)).1,
    {
        proof {
            self.lemma_content_index();
        }
        let mut row: usize = 0;
        let mut col: usize = 0;
        let mut i: usize = 0;
        while i < self.cursor
            invariant
                self.wf(),
                i <= self.cursor,
                row <= i,
                col <= i,
                (row as nat, col as nat) == row_column(self.content().take(i as int)),
            decreases self.cursor - i,
        {
            proof {
                self.lemma_content_index();
            }
            let c = self.buffer[i];
            assert(self.content().take(i + 1).drop_last() =~= self.content().take(i as int));
            if c == '\n' {
                row = row + 1;
                col = 0;
            } else {
                col = col + 1;
            }
            i = i + 1;
        }
        (row, col)
    }

    /// The whole text, end marker included, built anew on every call.
    pub fn to_string(&self) -> (r: String)
        requires
            self.wf(),
        ensures
            r@ == self.text(),
            r@.len() == self.content().len() + 1,
    {
        proof {
            self.lemma_content_index();
        }
        let mut result = String::new();
        let mut i: usize = 0;
        while i < self.gap_start
            invariant
                self.wf(),
                i <= self.gap_start,
                result@ == self.buffer@.take(i as int),
            decreases self.gap_start - i,
        {
            result.push(self.buffer[i]);
            i = i + 1;
            assert(result@ =~= self.buffer@.take(i as int));
        }
        let mut i: usize = self.gap_end;
        while i < self.buffer.len()
            invariant
                self.wf(),
                self.gap_end <= i <= self.buffer@.len(),
                result@ == self.buffer@.take(self.gap_start as int) + self.buffer@.subrange(
                    self.gap_end as int,
                    i as int,
                ),
            decreases self.buffer@.len() - i,
        {
            result.push(self.buffer[i]);
            i = i + 1;
            assert(result@ =~= self.buffer@.take(self.gap_start as int) + self.buffer@.subrange(
                self.gap_end as int,
                i as int,
            ));
        }
        assert(result@ =~= self.text());
        result
    }

    /// Replaces the document with `text`, character by character, leaving the
    /// cursor at its end.
    pub fn load(&mut self, text: &str)
        requires
            old(self).wf(),
            old(self).capacity() <= usize::MAX / 2,
            text@.len() <= usize::MAX / 4,
        ensures
            final(self).wf(),
            final(self).content() == text@,
            final(self).cursor_index() == text@.len(),
    {
        self.clear();
        let ghost start = self.capacity();
        for ch in it: text.chars()
            invariant
                self.wf(),
                it.seq() == text@,
                text@.len() <= usize::MAX / 4,
                start <= usize::MAX / 2,
                self.content() == text@.take(it.index() as int),
                self.cursor_index() == it.index(),
                self.capacity() <= start || self.capacity() <= 2 * it.index(),
        {
            self.insert(ch);
            assert(self.content() =~= text@.take(it.index() + 1));
        }
        assert(self.content() =~= text@);
    }

    /// The length of the text, end marker included.
    pub fn length(&self) -> (r: usize)
        requires
            self.wf(),
        ensures
            r == self.content().len() + 1,
            r == self.capacity() - self.gap_len(),
    {
        proof {
            self.lemma_content_index();
        }
        self.buffer.len() - (self.gap_end - self.gap_start)
    }

    /// The cursor's offset into the document.
    pub fn get_cursor(&self) -> (r: usize)
        requires
            self.wf(),
        ensures
            r == self.cursor_index(),
            r <= self.content().len(),
    {
        self.cursor
    }
}

/// Moving the cursor to where it already is changes nothing: the cursor stays
/// put (and `move_cursor` never changes the document).
pub proof fn lemma_move_to_cursor_is_no_op(b: GapBuffer)
    requires
        b.wf(),
    ensures
        moved_cursor(b.content().len(), b.cursor_index(), b.cursor_index()) == b.cursor_index(),
{
    b.lemma_content_index();
}

/// Every buffer accounts for all of its slots: the document, the end marker
/// and the gap fill the store exactly, and the cursor lies within the
/// document (its end included).
pub proof fn lemma_layout(b: GapBuffer)
    requires
        b.wf(),
    ensures
        b.content().len() + 1 + b.gap_len() == b.capacity(),
        b.cursor_index() <= b.content().len(),
{
    b.lemma_content_index();
}

/// A character inserted with the cursor at the end of the document is
/// appended to it, whether or not the store had to grow first: the rest of
/// the document keeps its characters and their order.
pub proof fn lemma_insert_at_end_appends(content: Seq<char>, ch: char)
    ensures
        content.insert(content.len() as int, ch) == content.push(ch),
        content.insert(content.len() as int, ch).take(content.len() as int) == content,
{
    assert(content.insert(content.len() as int, ch) =~= content.push(ch));
    assert(content.push(ch).take(content.len() as int) =~= content);
}

} // verus!
