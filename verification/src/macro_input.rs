use vstd::prelude::*;
use vstd::string::StrSliceExecFns;

verus! {

/// Whether `a` and `b` hold the same characters.
pub fn same_text(a: &str, b: &str) -> (r: bool)
    ensures
        r == (a@ == b@),
{
    let n = a.unicode_len();
    if n != b.unicode_len() {
        return false;
    }
    for i in 0..n
        invariant
            n == a@.len(),
            n == b@.len(),
            forall|j: int| 0 <= j < i ==> a@[j] == b@[j],
    {
        if a.get_char(i) != b.get_char(i) {
            return false;
        }
    }
    assert(a@ =~= b@);
    true
}

/// A key of a `font_data!` invocation.
#[derive(Debug, Clone, Copy, PartialEq, Eq, Structural)]
pub enum FontDataKey {
    Size,
    Path,
    Index,
    YOffset,
}

/// Why a key is refused where it stands; the error points at the key.
#[derive(Debug, Clone, Copy, PartialEq, Eq, Structural)]
pub enum KeyError {
    /// `index` before any `path`.
    IndexBeforePath,
    /// A second non-empty `index` for one block.
    DuplicateIndex,
    /// `y_offset` before any `path`.
    YOffsetBeforePath,
    /// A second `y_offset` for one block.
    DuplicateYOffset,
    /// A key the invocation does not take; `with_y_offset` tells whether it takes `y_offset`.
    Unexpected { with_y_offset: bool },
}

impl KeyError {
    pub open spec fn spec_message(&self) -> Seq<char> {
        match *self {
            KeyError::IndexBeforePath => "index must follow path"@,
            KeyError::DuplicateIndex => "duplicate index for font block"@,
            KeyError::YOffsetBeforePath => "y_offset must follow path"@,
            KeyError::DuplicateYOffset => "duplicate y_offset for font block"@,
            KeyError::Unexpected { with_y_offset } => if with_y_offset {
                "expected size, path, index, or y_offset"@
            } else {
                "expected size, path, or index"@
            },
        }
    }

    /// The message reported for the error.
    pub fn message(&self) -> (m: &'static str)
        ensures
            m@ == self.spec_message(),
    {
        match self {
            KeyError::IndexBeforePath => "index must follow path",
            KeyError::DuplicateIndex => "duplicate index for font block",
            KeyError::YOffsetBeforePath => "y_offset must follow path",
            KeyError::DuplicateYOffset => "duplicate y_offset for font block",
            KeyError::Unexpected { with_y_offset } => if *with_y_offset {
                "expected size, path, index, or y_offset"
            } else {
                "expected size, path, or index"
            },
        }
    }
}

/// Why a finished invocation is refused.
#[derive(Debug, Clone, Copy, PartialEq, Eq, Structural)]
pub enum FinishError {
    /// No `path` at all; the error points at the end of the input.
    MissingBlock,
    /// The block of this number (from 0) has no non-empty `index`; the error points at its
    /// path.
    MissingIndex(usize),
    /// No `size`; the error points at the end of the input.
    MissingSize,
}

impl FinishError {
    pub open spec fn spec_message(&self) -> Seq<char> {
        match *self {
            FinishError::MissingBlock => "missing font block"@,
            FinishError::MissingIndex(_) => "missing index for font block"@,
            FinishError::MissingSize => "missing size"@,
        }
    }

    /// The message reported for the error.
    pub fn message(&self) -> (m: &'static str)
        ensures
            m@ == self.spec_message(),
    {
        match self {
            FinishError::MissingBlock => "missing font block",
            FinishError::MissingIndex(_) => "missing index for font block",
            FinishError::MissingSize => "missing size",
        }
    }
}

/// A font block while the invocation is read: its path literal, its index literal with the
/// index's text once a non-empty one was given, and its vertical offset once given.
pub struct OpenBlock<L, E> {
    pub path: L,
    pub index: Option<(L, String)>,
    pub y_offset: Option<E>,
}

/// A font block of a read invocation.
pub struct FontBlock<L, E> {
    pub path: L,
    pub index: L,
    pub index_text: String,
    pub y_offset: Option<E>,
}

/// A read `font_data!` invocation: its size literal and its font blocks in order.
pub struct FontDataInput<N, L, E> {
    pub size: N,
    pub blocks: Vec<FontBlock<L, E>>,
}

/// The block that an open block becomes once it has its index.
pub open spec fn closed_block<L, E>(b: OpenBlock<L, E>) -> FontBlock<L, E> {
    FontBlock { path: b.path, index: b.index.unwrap().0, index_text: b.index.unwrap().1, y_offset: b.y_offset }
}

/// The state of reading a `font_data!` invocation, key after key: the last size literal,
/// the blocks whose path was followed by another path, and the block being read.
pub struct FontDataParser<N, L, E> {
    pub with_y_offset: bool,
    pub size: Option<N>,
    pub blocks: Vec<OpenBlock<L, E>>,
    pub current: Option<OpenBlock<L, E>>,
}

impl<N, L, E> FontDataParser<N, L, E> {
    /// A reader for an invocation that takes `y_offset` keys where `with_y_offset` holds.
    pub fn new(with_y_offset: bool) -> (p: Self)
        ensures
            p.with_y_offset == with_y_offset,
            p.size is None,
            p.blocks@.len() == 0,
            p.current is None,
    {
        FontDataParser { with_y_offset, size: None, blocks: Vec::new(), current: None }
    }

    /// All blocks read so far, the open one last.
    pub open spec fn all_blocks(&self) -> Seq<OpenBlock<L, E>> {
        match self.current {
            Some(b) => self.blocks@.push(b),
            None => self.blocks@,
        }
    }

    /// What a key named `name` is, or why it is refused at this point.
    pub open spec fn spec_key(&self, name: Seq<char>) -> Result<FontDataKey, KeyError> {
        if name == "size"@ {
            Ok(FontDataKey::Size)
        } else if name == "path"@ {
            Ok(FontDataKey::Path)
        } else if name == "index"@ {
            match self.current {
                None => Err(KeyError::IndexBeforePath),
                Some(b) => if b.index is Some {
                    Err(KeyError::DuplicateIndex)
                } else {
                    Ok(FontDataKey::Index)
                },
            }
        } else if self.with_y_offset && name == "y_offset"@ {
            match self.current {
                None => Err(KeyError::YOffsetBeforePath),
                Some(b) => if b.y_offset is Some {
                    Err(KeyError::DuplicateYOffset)
                } else {
                    Ok(FontDataKey::YOffset)
                },
            }
        } else {
            Err(KeyError::Unexpected { with_y_offset: self.with_y_offset })
        }
    }

    /// Classifies the key `name`, refusing it where it cannot stand: an `index` or
    /// `y_offset` needs an open block that has none yet.
    pub fn key(&self, name: &str) -> (r: Result<FontDataKey, KeyError>)
        ensures
            r == self.spec_key(name@),
    {
        if same_text(name, "size") {
            Ok(FontDataKey::Size)
        } else if same_text(name, "path") {
            Ok(FontDataKey::Path)
        } else if same_text(name, "index") {
            match &self.current {
                None => Err(KeyError::IndexBeforePath),
                Some(b) => if b.index.is_some() {
                    Err(KeyError::DuplicateIndex)
                } else {
                    Ok(FontDataKey::Index)
                },
            }
        } else if self.with_y_offset && same_text(name, "y_offset") {
            match &self.current {
                None => Err(KeyError::YOffsetBeforePath),
                Some(b) => if b.y_offset.is_some() {
                    Err(KeyError::DuplicateYOffset)
                } else {
                    Ok(FontDataKey::YOffset)
                },
            }
        } else {
            Err(KeyError::Unexpected { with_y_offset: self.with_y_offset })
        }
    }

    /// Takes the value of a `size` key; a later one replaces an earlier one.
    pub fn set_size(&mut self, size: N)
        ensures
            final(self).size == Some(size),
            final(self).with_y_offset == old(self).with_y_offset,
            final(self).blocks@ == old(self).blocks@,
            final(self).current == old(self).current,
    {
        self.size = Some(size);
    }

    /// Takes the value of a `path` key: closes the open block and opens a new one.
    pub fn start_block(&mut self, path: L)
        ensures
            final(self).all_blocks() == old(self).all_blocks().push(OpenBlock { path, index: None, y_offset: None }),
            final(self).current == Some(OpenBlock::<L, E> { path, index: None, y_offset: None }),
            final(self).blocks@ == old(self).all_blocks(),
            final(self).size == old(self).size,
            final(self).with_y_offset == old(self).with_y_offset,
    {
        if let Some(block) = self.current.take() {
            self.blocks.push(block);
        }
        self.current = Some(OpenBlock { path, index: None, y_offset: None });
    }

    /// Takes the value of an `index` key, with its text; an empty index leaves the block
    /// without one.
    pub fn set_index(&mut self, index: L, text: String)
        requires
            old(self).current matches Some(b) && b.index is None,
        ensures
            final(self).current == Some(OpenBlock {
                index: if text@.len() > 0 { Some((index, text)) } else { None },
                ..old(self).current.unwrap()
            }),
            final(self).blocks@ == old(self).blocks@,
            final(self).size == old(self).size,
            final(self).with_y_offset == old(self).with_y_offset,
    {
        let block = self.current.take().unwrap();
        let given = if text.as_str().unicode_len() > 0 { Some((index, text)) } else { None };
        self.current = Some(OpenBlock { path: block.path, index: given, y_offset: block.y_offset });
    }

    /// Takes the value of a `y_offset` key.
    pub fn set_y_offset(&mut self, y_offset: E)
        requires
            old(self).current matches Some(b) && b.y_offset is None,
        ensures
            final(self).current == Some(OpenBlock { y_offset: Some(y_offset), ..old(self).current.unwrap() }),
            final(self).blocks@ == old(self).blocks@,
            final(self).size == old(self).size,
            final(self).with_y_offset == old(self).with_y_offset,
    {
        let block = self.current.take().unwrap();
        self.current = Some(OpenBlock { path: block.path, index: block.index, y_offset: Some(y_offset) });
    }

    /// Ends the invocation: there must be a block, every block must have a non-empty index
    /// (the first that has none is reported) and there must be a size.
    pub fn finish(self) -> (r: Result<FontDataInput<N, L, E>, FinishError>)
        ensures
            self.all_blocks().len() == 0 ==> r == Err::<FontDataInput<N, L, E>, FinishError>(FinishError::MissingBlock),
            self.all_blocks().len() > 0 ==> match r {
                Err(FinishError::MissingBlock) => false,
                Err(FinishError::MissingIndex(i)) => {
                    &&& i < self.all_blocks().len()
                    &&& self.all_blocks()[i as int].index is None
                    &&& forall|j: int| 0 <= j < i ==> (#[trigger] self.all_blocks()[j]).index is Some
                },
                Err(FinishError::MissingSize) => {
                    &&& forall|j: int| 0 <= j < self.all_blocks().len() ==> (#[trigger] self.all_blocks()[j]).index is Some
                    &&& self.size is None
                },
                Ok(input) => {
                    &&& forall|j: int| 0 <= j < self.all_blocks().len() ==> (#[trigger] self.all_blocks()[j]).index is Some
                    &&& self.size == Some(input.size)
                    &&& input.blocks@ == self.all_blocks().map_values(|b: OpenBlock<L, E>| closed_block(b))
                },
            },
    {
        let ghost all_spec = self.all_blocks();
        let FontDataParser { with_y_offset: _, size, blocks, current } = self;
        let mut all = blocks;
        if let Some(block) = current {
            all.push(block);
        }
        assert(all@ == all_spec);
        if all.len() == 0 {
            return Err(FinishError::MissingBlock);
        }
        for k in 0..all.len()
            invariant
                all@ == all_spec,
                all_spec == self.all_blocks(),
                forall|j: int| 0 <= j < k ==> (#[trigger] all_spec[j]).index is Some,
        {
            if all[k].index.is_none() {
                return Err(FinishError::MissingIndex(k));
            }
        }
        let size = match size {
            Some(s) => s,
            None => return Err(FinishError::MissingSize),
        };
        let mut closed: Vec<FontBlock<L, E>> = Vec::new();
        let n = all.len();
        let mut i: usize = 0;
        while i < n
            invariant
                n == all_spec.len(),
                i <= n,
                all@ == all_spec.subrange(i as int, n as int),
                forall|j: int| 0 <= j < n ==> (#[trigger] all_spec[j]).index is Some,
                closed@ == all_spec.take(i as int).map_values(|b: OpenBlock<L, E>| closed_block(b)),
            decreases n - i,
        {
            let block = all.remove(0);
            proof {
                assert(block == all_spec[i as int]);
                assert(all@ =~= all_spec.subrange(i + 1, n as int));
            }
            match block.index {
                Some((index, index_text)) => {
                    closed.push(FontBlock { path: block.path, index, index_text, y_offset: block.y_offset });
                },
                None => {
                    proof {
                        assert(false);
                    }
                    return Err(FinishError::MissingIndex(i));
                },
            }
            proof {
                assert(all_spec.take(i + 1).map_values(|b: OpenBlock<L, E>| closed_block(b))
                    =~= all_spec.take(i as int).map_values(|b: OpenBlock<L, E>| closed_block(b)).push(closed_block(all_spec[i as int])));
            }
            i = i + 1;
        }
        proof {
            assert(all_spec.take(n as int) =~= all_spec);
        }
        Ok(FontDataInput { size, blocks: closed })
    }
}

} // verus!
