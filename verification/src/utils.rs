pub mod version;
pub mod util;
pub mod devcon;
pub mod extract;
pub mod sevenZIP;
pub mod sevenZip;
pub mod console;
