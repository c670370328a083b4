//! A local process launcher core: allocates unused network ports from a
//! bounded range, records which application holds which port, and prepares
//! everything a host shell needs to start an application's run script as a
//! detached child process.

pub mod allocator;
pub mod launcher;
pub mod table;
pub mod text;
