//! Data structures for containing multiple items.

pub mod doubly_linked_list;
pub mod linked_hash_map;

pub use doubly_linked_list::DoublyLinkedList;
pub use linked_hash_map::LinkedHashMap;
