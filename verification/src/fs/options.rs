//! How files and directories are made.

use vstd::prelude::*;

verus! {

/// How a directory is made.
#[derive(Debug)]
pub struct DirBuilder {
    pub recursive: bool,
    pub mode: Option<u32>,
}

impl DirBuilder {
    pub fn new() -> (r: DirBuilder)
        ensures
            !r.recursive,
            r.mode is None,
    {
        DirBuilder { recursive: false, mode: None }
    }

    /// Whether the directories above it are made too.
    pub fn recursive(&mut self, recursive: bool) -> (r: &mut Self)
        ensures
            *r == (DirBuilder { recursive, ..*old(self) }),
            *final(self) == *final(r),
    {
        self.recursive = recursive;
        self
    }
}

/// How a directory is made on Unix.
pub trait DirBuilderExt: Sized {
    spec fn with_mode(self, mode: u32) -> Self;

    /// Sets who may do what with it.
    fn mode(&mut self, mode: u32) -> (r: &mut Self)
        ensures
            *r == old(self).with_mode(mode),
            *final(self) == *final(r),
    ;
}

impl DirBuilderExt for DirBuilder {
    open spec fn with_mode(self, mode: u32) -> Self {
        DirBuilder { mode: Some(mode), ..self }
    }

    fn mode(&mut self, mode: u32) -> (r: &mut Self) {
        self.mode = Some(mode);
        self
    }
}

/// How a file is opened.
#[derive(Debug)]
pub struct OpenOptions {
    pub read: bool,
    pub write: bool,
    pub append: bool,
    pub truncate: bool,
    pub create: bool,
    pub create_new: bool,
    pub mode: Option<u32>,
    pub custom_flags: Option<i32>,
}

impl OpenOptions {
    /// Nothing is allowed.
    pub fn new() -> (r: OpenOptions)
        ensures
            !r.read && !r.write && !r.append && !r.truncate && !r.create && !r.create_new,
            r.mode is None,
            r.custom_flags is None,
    {
        OpenOptions {
            read: false,
            write: false,
            append: false,
            truncate: false,
            create: false,
            create_new: false,
            mode: None,
            custom_flags: None,
        }
    }

    /// Whether it is read.
    pub fn read(&mut self, read: bool) -> (r: &mut OpenOptions)
        ensures
            *r == (OpenOptions { read, ..*old(self) }),
            *final(self) == *final(r),
    {
        self.read = read;
        self
    }

    /// Whether it is written.
    pub fn write(&mut self, write: bool) -> (r: &mut OpenOptions)
        ensures
            *r == (OpenOptions { write, ..*old(self) }),
            *final(self) == *final(r),
    {
        self.write = write;
        self
    }

    /// Whether what is written goes to its end.
    pub fn append(&mut self, append: bool) -> (r: &mut OpenOptions)
        ensures
            *r == (OpenOptions { append, ..*old(self) }),
            *final(self) == *final(r),
    {
        self.append = append;
        self
    }

    /// Whether it is emptied.
    pub fn truncate(&mut self, truncate: bool) -> (r: &mut OpenOptions)
        ensures
            *r == (OpenOptions { truncate, ..*old(self) }),
            *final(self) == *final(r),
    {
        self.truncate = truncate;
        self
    }

    /// Whether it is made if it is not there.
    pub fn create(&mut self, create: bool) -> (r: &mut OpenOptions)
        ensures
            *r == (OpenOptions { create, ..*old(self) }),
            *final(self) == *final(r),
    {
        self.create = create;
        self
    }

    /// Whether it is made and must not be there.
    pub fn create_new(&mut self, create_new: bool) -> (r: &mut OpenOptions)
        ensures
            *r == (OpenOptions { create_new, ..*old(self) }),
            *final(self) == *final(r),
    {
        self.create_new = create_new;
        self
    }
}

/// How a file is opened on Unix.
pub trait OpenOptionsExt: Sized {
    spec fn with_mode(self, mode: u32) -> Self;

    spec fn with_flags(self, flags: i32) -> Self;

    /// Sets who may do what with it, if it is made.
    fn mode(&mut self, mode: u32) -> (r: &mut Self)
        ensures
            *r == old(self).with_mode(mode),
            *final(self) == *final(r),
    ;

    /// Sets flags that are handed on.
    fn custom_flags(&mut self, flags: i32) -> (r: &mut Self)
        ensures
            *r == old(self).with_flags(flags),
            *final(self) == *final(r),
    ;
}

impl OpenOptionsExt for OpenOptions {
    open spec fn with_mode(self, mode: u32) -> Self {
        OpenOptions { mode: Some(mode), ..self }
    }

    open spec fn with_flags(self, flags: i32) -> Self {
        OpenOptions { custom_flags: Some(flags), ..self }
    }

    fn mode(&mut self, mode: u32) -> (r: &mut Self) {
        self.mode = Some(mode);
        self
    }

    fn custom_flags(&mut self, flags: i32) -> (r: &mut Self) {
        self.custom_flags = Some(flags);
        self
    }
}

} // verus!
