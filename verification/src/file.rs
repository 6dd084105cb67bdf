//! The file record: a named blob of bytes.

use vstd::prelude::*;

verus! {

/// `std::io::Error`, carried through the `Result`s of this module. Nothing in
/// the library ever builds or inspects one.
#[verifier::external_type_specification]
#[verifier::external_body]
pub struct ExIoError(std::io::Error);

/// What a [`TFile`] stands for: its name and its bytes.
pub ghost struct FileRecord {
    pub name: Seq<char>,
    pub content: Seq<u8>,
}

/// A named blob of bytes. The `length` field always equals the number of
/// bytes in `content`.
#[derive(Debug)]
pub struct TFile {
    name: String,
    length: usize,
    content: Vec<u8>,
}

impl View for TFile {
    type V = FileRecord;

    closed spec fn view(&self) -> FileRecord {
        FileRecord { name: self.name@, content: self.content@ }
    }
}

impl Clone for TFile {
    fn clone(&self) -> (copy: Self)
        ensures
            copy@ == self@,
    {
        proof {
            use_type_invariant(self);
        }
        TFile { name: self.name.clone(), length: self.length, content: self.content.clone() }
    }
}

impl TFile {
    #[verifier::type_invariant]
    spec fn length_matches(self) -> bool {
        self.length == self.content@.len()
    }

    /// Builds a record in memory, touching no storage. Always succeeds.
    pub fn new_in_client(name: String, content: Vec<u8>) -> (made: Result<TFile, std::io::Error>)
        ensures
            made matches Ok(file) && file@ == (FileRecord { name: name@, content: content@ }),
    {
        Ok(TFile { name, length: content.len(), content })
    }

    /// Writing into a record is a capability that is not offered yet: the
    /// call succeeds and leaves the record as it was.
    pub fn write_tfile(&mut self) -> (done: Result<(), std::io::Error>)
        ensures
            done is Ok,
            final(self)@ == old(self)@,
    {
        Ok(())
    }

    /// The record's name.
    pub fn name(&self) -> (name: &String)
        ensures
            name@ == self@.name,
    {
        &self.name
    }

    /// The number of bytes held.
    pub fn length(&self) -> (length: usize)
        ensures
            length == self@.content.len(),
    {
        proof {
            use_type_invariant(self);
        }
        self.length
    }

    /// The bytes held.
    pub fn content(&self) -> (content: &Vec<u8>)
        ensures
            content@ == self@.content,
    {
        &self.content
    }
}

} // verus!
