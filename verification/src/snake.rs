//! The snake of the game: positions in a ring buffer whose length is a power
//! of two, so that an index wraps round by a mask.

use vstd::prelude::*;

verus! {

/// A position on the board.
#[derive(Clone, Copy, Debug, PartialEq, Eq, Structural)]
pub struct Pos {
    pub x: u8,
    pub y: u8,
}

impl Pos {
    /// The position in column `x` and row `y`.
    pub fn new(x: u8, y: u8) -> (pos: Pos)
        ensures
            pos == (Pos { x, y }),
    {
        Pos { x, y }
    }
}

/// A direction of travel. `Down` is towards larger `y`.
#[derive(Clone, Copy, Debug)]
pub enum Dir {
    Right,
    Down,
    Left,
    Up,
}

/// The change of `x` that one step in direction `d` makes.
pub open spec fn dx(d: Dir) -> int {
    match d {
        Dir::Right => 1,
        Dir::Left => -1,
        _ => 0,
    }
}

/// The change of `y` that one step in direction `d` makes.
pub open spec fn dy(d: Dir) -> int {
    match d {
        Dir::Down => 1,
        Dir::Up => -1,
        _ => 0,
    }
}

/// The position one step from `p` in direction `d`, or `None` where a
/// coordinate would leave the range of `u8`.
pub open spec fn neighbour(p: Pos, d: Dir) -> Option<Pos> {
    let x = p.x + dx(d);
    let y = p.y + dy(d);
    if 0 <= x <= u8::MAX && 0 <= y <= u8::MAX {
        Some(Pos { x: x as u8, y: y as u8 })
    } else {
        None
    }
}

/// The position that pads a buffer.
pub open spec fn origin() -> Pos {
    Pos { x: 0, y: 0 }
}

/// `n` is a power of two.
pub open spec fn is_pow2(n: nat) -> bool
    decreases n,
{
    n == 1 || (n >= 2 && n % 2 == 0 && is_pow2(n / 2))
}

/// The slot behind slot `i` in a ring of `cap` slots.
pub open spec fn next_slot(i: int, cap: int) -> int {
    if i + 1 == cap {
        0
    } else {
        i + 1
    }
}

/// A snake as a ring buffer: `body` is the buffer, `head` and `tail` index
/// the newest and the oldest segment. The segments lie from `tail` up to
/// `head`, wrapping round at the end of the buffer.
#[verifier::ext_equal]
pub struct SnakeView {
    pub body: Seq<Pos>,
    pub head: int,
    pub tail: int,
}

impl SnakeView {
    /// The buffer's length is a power of two and both indices lie in it.
    pub open spec fn wf(self) -> bool {
        &&& is_pow2(self.body.len())
        &&& 0 <= self.head < self.body.len()
        &&& 0 <= self.tail < self.body.len()
    }

    /// The number of segments.
    pub open spec fn len(self) -> int {
        if self.head >= self.tail {
            self.head - self.tail + 1
        } else {
            self.head + self.body.len() - self.tail + 1
        }
    }

    /// The slot of the segment that `i` segments precede.
    pub open spec fn slot(self, i: int) -> int {
        if self.tail + i < self.body.len() {
            self.tail + i
        } else {
            self.tail + i - self.body.len()
        }
    }

    /// The segments, oldest first.
    pub open spec fn segments(self) -> Seq<Pos> {
        Seq::new(self.len() as nat, |i: int| self.body[self.slot(i)])
    }

    /// The buffer holds as many segments as it has room for.
    pub open spec fn full(self) -> bool {
        next_slot(self.head, self.body.len() as int) == self.tail
    }

    /// The snake after its head has gone on to `to`. The new head is written
    /// into the slot behind the old one. Without `grow` the tail gives up its
    /// slot. With `grow` the tail stays; where the buffer was full, so that
    /// the head has taken the tail's slot, the buffer doubles, the slots
    /// behind the tail move to its end, and the tail becomes the last padded
    /// slot before them.
    pub open spec fn advanced(self, to: Pos, grow: bool) -> SnakeView {
        let cap = self.body.len() as int;
        let head = next_slot(self.head, cap);
        let body = self.body.update(head, to);
        if !grow {
            SnakeView { body, head, tail: next_slot(self.tail, cap) }
        } else if head != self.tail {
            SnakeView { body, head, tail: self.tail }
        } else {
            SnakeView {
                body: body + Seq::new(
                    cap as nat,
                    |i: int| if i > self.tail { body[i] } else { origin() },
                ),
                head,
                tail: self.tail + cap,
            }
        }
    }
}

/// The snake: a ring buffer of positions whose length is a power of two.
pub struct Snake {
    body: Vec<Pos>,
    head: usize,
    tail: usize,
}

impl View for Snake {
    type V = SnakeView;

    closed spec fn view(&self) -> SnakeView {
        SnakeView { body: self.body@, head: self.head as int, tail: self.tail as int }
    }
}

/// What a move does to the segments: the new head comes behind them. Without
/// growth the oldest segment leaves. With growth all stay, but for a full
/// buffer, where the head has overwritten the oldest segment and the origin
/// takes its place.
pub proof fn lemma_advanced_segments(snake: SnakeView, to: Pos, grow: bool)
    requires
        snake.wf(),
    ensures
        snake.advanced(to, grow).wf(),
        snake.full() <==> snake.len() == snake.body.len(),
        snake.advanced(to, grow).segments() == if !grow {
            snake.segments().drop_first().push(to)
        } else if !snake.full() {
            snake.segments().push(to)
        } else {
            seq![origin()] + snake.segments().drop_first().push(to)
        },
{
}

/// A power of two shares no bit with its predecessor.
proof fn lemma_pow2_mask(n: usize)
    requires
        is_pow2(n as nat),
    ensures
        n & ((n - 1) as usize) == 0,
    decreases n,
{
    if n == 1 {
        assert(1usize & ((1usize - 1) as usize) == 0) by (bit_vector);
    } else {
        let h: usize = n / 2;
        lemma_pow2_mask(h);
        assert(n & ((n - 1) as usize) == 0) by (bit_vector)
            requires
                n >= 2,
                n % 2 == 0,
                h == n / 2,
                h & ((h - 1) as usize) == 0,
        ;
    }
}

/// Masking with the predecessor of a power of two wraps an index round the
/// ring.
proof fn lemma_mask_wraps(i: usize, n: usize)
    requires
        is_pow2(n as nat),
        i < n,
    ensures
        ((i + 1) as usize) & ((n - 1) as usize) == next_slot(i as int, n as int),
{
    lemma_pow2_mask(n);
    let j: usize = (i + 1) as usize;
    assert(j & ((n - 1) as usize) == (if j == n { 0 } else { j })) by (bit_vector)
        requires
            n & ((n - 1) as usize) == 0,
            0 < j <= n,
    ;
}

impl Snake {
    /// A snake whose segments are `body`, oldest first, in a buffer padded
    /// with the origin up to the next power of two.
    pub fn new(body: Vec<Pos>) -> (snake: Snake)
        requires
            0 < body.len() <= usize::MAX / 2 + 1,
        ensures
            snake@.wf(),
            snake@.head == body.len() - 1,
            snake@.tail == 0,
            body.len() <= snake@.body.len() < 2 * body.len(),
            snake@.body.subrange(0, body.len() as int) == body@,
            forall|i: int| body.len() <= i < snake@.body.len() ==> snake@.body[i] == origin(),
            snake@.segments() == body@,
    {
        let mut body = body;
        let len = body.len();
        let mut cap: usize = 1;
        while cap < len
            invariant
                is_pow2(cap as nat),
                cap < 2 * len,
                0 < len <= usize::MAX / 2 + 1,
            decreases 2 * len - cap,
        {
            cap = cap * 2;
        }
        body.resize(cap, Pos { x: 0, y: 0 });
        let snake = Snake { body, head: len - 1, tail: 0 };
        snake
    }

    /// Moves the head one step in `direction` and asks `grow` about the
    /// position it reaches: the snake keeps its tail where `grow` says so and
    /// gives it up otherwise.
    ///
    /// Returns the new position of the head and the position that the tail
    /// held before the move, or `None`, with the snake untouched, where the
    /// step would leave the range of the coordinates.
    pub fn mov(&mut self, grow: impl FnOnce(Pos) -> bool, direction: Dir) -> (moved: Option<
        (Pos, Pos),
    >)
        requires
            old(self)@.wf(),
            old(self)@.body.len() <= usize::MAX / 2,
            forall|to: Pos|
                neighbour(old(self)@.body[old(self)@.head], direction) == Some(to)
                    ==> call_requires(grow, (to,)),
        ensures
            final(self)@.wf(),
            match neighbour(old(self)@.body[old(self)@.head], direction) {
                None => moved is None && final(self)@ == old(self)@,
                Some(to) => {
                    &&& moved == Some((to, old(self)@.body[old(self)@.tail]))
                    &&& exists|g: bool|
                        call_ensures(grow, (to,), g) && final(self)@ == old(self)@.advanced(to, g)
                },
            },
    {
        let (step_x, step_y): (i16, i16) = match direction {
            Dir::Right => (1, 0),
            Dir::Down => (0, 1),
            Dir::Left => (-1, 0),
            Dir::Up => (0, -1),
        };
        let tail = self.body[self.tail];
        let head = self.body[self.head];
        let x: i16 = head.x as i16 + step_x;
        let y: i16 = head.y as i16 + step_y;
        if 0 <= x && x <= 255 && 0 <= y && y <= 255 {
            let to = Pos::new(x as u8, y as u8);
            let cap = self.body.len();
            proof {
                lemma_mask_wraps(self.head, cap);
                lemma_mask_wraps(self.tail, cap);
            }
            self.head = (self.head + 1) & (cap - 1);
            self.body[self.head] = to;
            let ghost written = self.body@;
            let grew = grow(to);
            if grew {
                if self.head == self.tail {
                    self.body.resize(cap * 2, Pos { x: 0, y: 0 });
                    let mut i: usize = self.tail + 1;
                    while i < cap
                        invariant
                            self.head == old(self).tail,
                            self.tail == old(self).tail,
                            self.tail < i <= cap,
                            2 * cap <= usize::MAX,
                            written.len() == cap,
                            self.body@.len() == 2 * cap,
                            self.body@.subrange(0, cap as int) == written,
                            forall|j: int|
                                cap <= j < 2 * cap ==> #[trigger] self.body@[j] == (if self.tail
                                    < j - cap < i {
                                    written[j - cap]
                                } else {
                                    origin()
                                }),
                        decreases cap - i,
                    {
                        let moved_slot = self.body[i];
                        self.body[cap + i] = moved_slot;
                        i += 1;
                    }
                    self.tail += cap;
                }
            } else {
                self.tail = (self.tail + 1) & (cap - 1);
            }
            assert(self@ =~= old(self)@.advanced(to, grew));
            Some((to, tail))
        } else {
            None
        }
    }

    /// The buffer, slot by slot.
    pub fn body(&self) -> (body: &Vec<Pos>)
        ensures
            body@ == self@.body,
    {
        &self.body
    }

    /// The position of the head.
    pub fn head(&self) -> (pos: Pos)
        requires
            self@.wf(),
        ensures
            pos == self@.body[self@.head],
    {
        self.body[self.head]
    }
}

} // verus!
